use crate::error::MailGuardError;
use crate::threat::{category_of, ThreatType};
use vstd::prelude::*;
use vstd::string::*;

verus! {

/// The block-list zone that candidate domains are looked up under.
pub const SURBL_ZONE: &'static str = "tempmail.so.multi.surbl.org";

/// Longest domain accepted, in characters.
pub const MAX_DOMAIN_LEN: usize = 253;

/// What the resolver answered for a lookup name.
#[derive(Debug, Clone, PartialEq, Eq)]
pub enum LookupOutcome {
    /// The addresses found, in the resolver's order, each as its octets
    /// (four for IPv4, sixteen for IPv6).
    Addresses(Vec<Vec<u8>>),
    /// The name does not exist or has no address records.
    NoRecords,
    /// Any other failure, with the resolver's message.
    Failed(String),
}

/// The name looked up for `domain`: the domain followed by the zone.
pub open spec fn lookup_name_of(domain: Seq<char>) -> Seq<char> {
    domain + "."@ + SURBL_ZONE@
}

/// An address of the form 127.0.0.x with x greater than 1 marks a listed domain.
pub open spec fn is_positive(octets: Seq<u8>) -> bool {
    octets.len() == 4 && octets[0] == 127 && octets[1] == 0 && octets[2] == 0 && octets[3] > 1
}

/// The classification given by the first positive address, if any.
pub open spec fn first_listing(addrs: Seq<Vec<u8>>) -> Option<ThreatType>
    decreases addrs.len(),
{
    if addrs.len() == 0 {
        None
    } else if is_positive(addrs[0]@) {
        Some(category_of(addrs[0]@[3]))
    } else {
        first_listing(addrs.drop_first())
    }
}

/// What an answer means: listed (with its category), not listed, or failed.
pub open spec fn outcome_meaning(o: LookupOutcome) -> Result<Option<ThreatType>, MailGuardError> {
    match o {
        LookupOutcome::Addresses(a) => Ok(first_listing(a@)),
        LookupOutcome::NoRecords => Ok(None),
        LookupOutcome::Failed(msg) => Err(MailGuardError::DnsError(msg)),
    }
}

/// Result of `char::is_alphanumeric`: the character is alphabetic or numeric
/// in the Unicode sense.
pub uninterp spec fn alphanumeric(c: char) -> bool;

/// An ASCII letter or digit.
pub open spec fn ascii_alnum(c: char) -> bool {
    ('a' <= c && c <= 'z') || ('A' <= c && c <= 'Z') || ('0' <= c && c <= '9')
}

/// Relies on char::is_alphanumeric, which depends on the character alone;
/// among ASCII characters exactly the letters and digits are alphanumeric.
#[verifier::external_body]
fn is_alphanumeric(c: char) -> (r: bool)
    ensures
        r == alphanumeric(c),
        ascii_alnum(c) ==> r,
        (c as u32) < 128 && !ascii_alnum(c) ==> !r,
{
    c.is_alphanumeric()
}

/// A character allowed in a domain.
pub open spec fn domain_char(c: char) -> bool {
    alphanumeric(c) || c == '.' || c == '-'
}

/// The domain's shape is acceptable: not empty, at most 253 characters long, made
/// of letters, digits, dots and hyphens, not starting or ending with a dot,
/// and without two dots in a row.
pub open spec fn valid_domain(s: Seq<char>) -> bool {
    &&& s.len() > 0
    &&& s.len() <= MAX_DOMAIN_LEN
    &&& forall|i: int| 0 <= i < s.len() ==> domain_char(#[trigger] s[i])
    &&& s[0] != '.'
    &&& s[s.len() - 1] != '.'
    &&& forall|i: int| 0 <= i < s.len() - 1 ==> !(#[trigger] s[i] == '.' && s[i + 1] == '.')
}

/// Builds the name to look up for `domain`.
pub fn lookup_name(domain: &str) -> (r: String)
    ensures
        r@ == lookup_name_of(domain@),
{
    let mut r = String::from_str(domain);
    r.append(".");
    r.append(SURBL_ZONE);
    r
}

/// Whether an address, given by its octets, is a positive answer.
pub fn is_surbl_positive_response(octets: &Vec<u8>) -> (r: bool)
    ensures
        r == is_positive(octets@),
{
    octets.len() == 4 && octets[0] == 127 && octets[1] == 0 && octets[2] == 0 && octets[3] > 1
}

/// Interprets the resolver's answer: the first positive address classifies
/// the domain; no positive address, or no record at all, means not listed;
/// any other failure is an error.
pub fn interpret_lookup(outcome: &LookupOutcome) -> (r: Result<Option<ThreatType>, MailGuardError>)
    ensures
        r == outcome_meaning(*outcome),
{
    match outcome {
        LookupOutcome::Addresses(addrs) => {
            let mut i: usize = 0;
            assert(addrs@.subrange(0, addrs@.len() as int) =~= addrs@);
            while i < addrs.len()
                invariant
                    i <= addrs@.len(),
                    outcome_meaning(*outcome) == Ok::<Option<ThreatType>, MailGuardError>(
                        first_listing(addrs@),
                    ),
                    first_listing(addrs@) == first_listing(addrs@.subrange(i as int, addrs@.len() as int)),
                decreases addrs@.len() - i,
            {
                let ghost rest = addrs@.subrange(i as int, addrs@.len() as int);
                assert(rest.drop_first() =~= addrs@.subrange(i + 1, addrs@.len() as int));
                assert(rest[0] == addrs@[i as int]);
                assert(rest.len() > 0);
                if is_surbl_positive_response(&addrs[i]) {
                    assert(first_listing(rest) == Some(category_of(addrs@[i as int]@[3])));
                    let t = ThreatType::from_ip_last_octet(addrs[i][3]);
                    return Ok(Some(t));
                }
                i = i + 1;
            }
            assert(addrs@.subrange(i as int, addrs@.len() as int).len() == 0);
            Ok(None)
        },
        LookupOutcome::NoRecords => Ok(None),
        LookupOutcome::Failed(msg) => Err(MailGuardError::DnsError(msg.clone())),
    }
}

/// Checks the shape of a domain before any lookup.
pub fn validate_domain(domain: &str) -> (r: Result<(), MailGuardError>)
    ensures
        r is Ok <==> valid_domain(domain@),
        r matches Err(e) ==> e is InvalidDomain,
{
    let n = domain.unicode_len();
    if n == 0 {
        return Err(MailGuardError::InvalidDomain(String::from_str("Domain cannot be empty")));
    }
    if n > MAX_DOMAIN_LEN {
        return Err(MailGuardError::InvalidDomain(String::from_str("Domain length exceeds limit")));
    }
    let mut i: usize = 0;
    while i < n
        invariant
            n == domain@.len(),
            i <= n,
            forall|j: int| 0 <= j < i ==> domain_char(#[trigger] domain@[j]),
        decreases n - i,
    {
        let c = domain.get_char(i);
        if !(is_alphanumeric(c) || c == '.' || c == '-') {
            let mut msg = String::from_str("Invalid domain characters: ");
            msg.append(domain);
            return Err(MailGuardError::InvalidDomain(msg));
        }
        i = i + 1;
    }
    let mut bad = domain.get_char(0) == '.' || domain.get_char(n - 1) == '.';
    let mut j: usize = 0;
    while j + 1 < n && !bad
        invariant
            n == domain@.len(),
            n > 0,
            j < n,
            !bad ==> forall|k: int| 0 <= k < j ==> !(#[trigger] domain@[k] == '.' && domain@[k + 1] == '.'),
            bad ==> (domain@[0] == '.' || domain@[n - 1] == '.' || exists|k: int| 0 <= k < n - 1 && #[trigger] domain@[k] == '.' && domain@[k + 1] == '.'),
            !bad ==> domain@[0] != '.' && domain@[n - 1] != '.',
        decreases n - j,
    {
        if domain.get_char(j) == '.' && domain.get_char(j + 1) == '.' {
            bad = true;
        }
        j = j + 1;
    }
    if bad {
        let mut msg = String::from_str("Invalid domain format: ");
        msg.append(domain);
        return Err(MailGuardError::InvalidDomain(msg));
    }
    Ok(())
}

} // verus!
