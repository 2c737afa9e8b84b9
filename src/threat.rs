use vstd::prelude::*;

verus! {

/// Category of a listed domain, decoded from the last octet of a positive
/// block-list answer.
#[derive(Debug, Clone, Copy, PartialEq, Eq, Structural)]
pub enum ThreatType {
    /// Spam source (answers 127.0.0.2 and 127.0.0.9).
    Spam,
    /// Phishing website (127.0.0.3).
    Phishing,
    /// Malware (127.0.0.4, 127.0.0.6, 127.0.0.7 and 127.0.0.11).
    Malware,
    /// Botnet (127.0.0.5).
    Botnet,
    /// Potentially unwanted program (127.0.0.10).
    Pup,
    /// Any other answer code.
    Unknown(u8),
}

/// The category that an answer code stands for.
pub open spec fn category_of(code: u8) -> ThreatType {
    if code == 2 || code == 9 {
        ThreatType::Spam
    } else if code == 3 {
        ThreatType::Phishing
    } else if code == 4 || code == 6 || code == 7 || code == 11 {
        ThreatType::Malware
    } else if code == 5 {
        ThreatType::Botnet
    } else if code == 10 {
        ThreatType::Pup
    } else {
        ThreatType::Unknown(code)
    }
}

/// Severity of a category, from 1 (lowest) to 5 (highest).
pub open spec fn severity_of(t: ThreatType) -> u8 {
    match t {
        ThreatType::Malware => 5,
        ThreatType::Phishing => 4,
        ThreatType::Botnet => 4,
        ThreatType::Spam => 2,
        ThreatType::Pup => 1,
        ThreatType::Unknown(_) => 3,
    }
}

/// Human-readable label of a category.
pub open spec fn description_of(t: ThreatType) -> Seq<char> {
    match t {
        ThreatType::Spam => "Spam Source"@,
        ThreatType::Phishing => "Phishing Website"@,
        ThreatType::Malware => "Malware"@,
        ThreatType::Botnet => "Botnet"@,
        ThreatType::Pup => "Potentially Unwanted Program"@,
        ThreatType::Unknown(_) => "Unknown Threat Type"@,
    }
}

impl ThreatType {
    /// Decodes the last octet of a positive answer.
    pub fn from_ip_last_octet(octet: u8) -> (r: ThreatType)
        ensures
            r == category_of(octet),
    {
        match octet {
            2 | 9 => ThreatType::Spam,
            3 => ThreatType::Phishing,
            4 | 6 | 7 | 11 => ThreatType::Malware,
            5 => ThreatType::Botnet,
            10 => ThreatType::Pup,
            _ => ThreatType::Unknown(octet),
        }
    }

    /// Human-readable label of this category.
    pub fn description(&self) -> (r: &'static str)
        ensures
            r@ == description_of(*self),
    {
        match self {
            ThreatType::Spam => "Spam Source",
            ThreatType::Phishing => "Phishing Website",
            ThreatType::Malware => "Malware",
            ThreatType::Botnet => "Botnet",
            ThreatType::Pup => "Potentially Unwanted Program",
            ThreatType::Unknown(_) => "Unknown Threat Type",
        }
    }

    /// Severity level from 1 to 5; 5 is the highest.
    pub fn severity_level(&self) -> (r: u8)
        ensures
            r == severity_of(*self),
            1 <= r <= 5,
    {
        match self {
            ThreatType::Malware => 5,
            ThreatType::Phishing => 4,
            ThreatType::Botnet => 4,
            ThreatType::Spam => 2,
            ThreatType::Pup => 1,
            ThreatType::Unknown(_) => 3,
        }
    }
}

/// Every answer code falls into exactly the category and severity of the
/// fixed table: codes 2 and 9 are spam of severity 2, code 3 phishing of
/// severity 4, codes 4, 6, 7 and 11 malware of severity 5, code 5 a botnet of
/// severity 4, code 10 an unwanted program of severity 1, and any other code
/// is unknown, keeps the code, and has severity 3.
pub proof fn lemma_classification_table(code: u8)
    ensures
        (code == 2 || code == 9) ==> category_of(code) == ThreatType::Spam
            && severity_of(category_of(code)) == 2,
        code == 3 ==> category_of(code) == ThreatType::Phishing && severity_of(category_of(code))
            == 4,
        (code == 4 || code == 6 || code == 7 || code == 11) ==> category_of(code)
            == ThreatType::Malware && severity_of(category_of(code)) == 5,
        code == 5 ==> category_of(code) == ThreatType::Botnet && severity_of(category_of(code))
            == 4,
        code == 10 ==> category_of(code) == ThreatType::Pup && severity_of(category_of(code))
            == 1,
        !(code == 2 || code == 3 || code == 4 || code == 5 || code == 6 || code == 7 || code == 9
            || code == 10 || code == 11) ==> category_of(code) == ThreatType::Unknown(code)
            && severity_of(category_of(code)) == 3,
{
}

} // verus!
