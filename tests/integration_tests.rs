use mailguard::cache::CacheStore;
use mailguard::detector::{
    begin_domain_check_at, begin_email_check_at, complete_domain_check_at, email_status,
    extract_domain, is_host_name, is_mailbox_address,
};
use mailguard::dns::{interpret_lookup, is_surbl_positive_response, lookup_name, validate_domain};
use mailguard::{
    DomainStatus, DomainStep, EmailStatus, LookupOutcome, MailGuard, MailGuardConfig,
    MailGuardError, ThreatType,
};

fn lookup_of(step: DomainStep) -> (String, String) {
    match step {
        DomainStep::Lookup { domain, query } => (domain, query),
        DomainStep::Cached(_) => panic!("expected a lookup"),
    }
}

fn cached_of(step: DomainStep) -> DomainStatus {
    match step {
        DomainStep::Cached(s) => s,
        DomainStep::Lookup { .. } => panic!("expected a cached answer"),
    }
}

fn check_email_with(
    guard: &MailGuard,
    email: &str,
    outcome: &LookupOutcome,
) -> Result<EmailStatus, MailGuardError> {
    let status = match guard.begin_email_check(email)? {
        DomainStep::Cached(s) => s,
        DomainStep::Lookup { domain, .. } => guard.complete_domain_check(domain, outcome)?,
    };
    Ok(email_status(email, status))
}

fn check_domain_with(
    guard: &MailGuard,
    domain: &str,
    outcome: &LookupOutcome,
) -> Result<DomainStatus, MailGuardError> {
    match guard.begin_domain_check(domain)? {
        DomainStep::Cached(s) => Ok(s),
        DomainStep::Lookup { domain, .. } => guard.complete_domain_check(domain, outcome),
    }
}

#[test]
fn test_valid_email_format() {
    let result = MailGuard::new().begin_email_check("test@example.com");
    assert!(result.is_ok());
}

#[test]
fn test_invalid_email_format() {
    let guard = MailGuard::new();
    let result = guard.begin_email_check("invalid-email");
    assert!(result.is_err());

    let result = guard.begin_email_check("@example.com");
    assert!(result.is_err());

    let result = guard.begin_email_check("test@");
    assert!(result.is_err());
}

#[test]
fn test_domain_validation() {
    let guard = MailGuard::new();
    let result = guard.begin_domain_check("");
    assert!(result.is_err());

    let result = guard.begin_domain_check(".example.com");
    assert!(result.is_err());

    let result = guard.begin_domain_check("example..com");
    assert!(result.is_err());
}

#[test]
fn test_threat_type_classification() {
    assert_eq!(ThreatType::from_ip_last_octet(2), ThreatType::Spam);
    assert_eq!(ThreatType::from_ip_last_octet(3), ThreatType::Phishing);
    assert_eq!(ThreatType::from_ip_last_octet(4), ThreatType::Malware);
    assert_eq!(ThreatType::from_ip_last_octet(5), ThreatType::Botnet);
    assert_eq!(ThreatType::from_ip_last_octet(10), ThreatType::Pup);

    match ThreatType::from_ip_last_octet(255) {
        ThreatType::Unknown(255) => (),
        _ => panic!("Expected Unknown threat type"),
    }
}

#[test]
fn test_threat_type_severity() {
    assert_eq!(ThreatType::Malware.severity_level(), 5);
    assert_eq!(ThreatType::Phishing.severity_level(), 4);
    assert_eq!(ThreatType::Botnet.severity_level(), 4);
    assert_eq!(ThreatType::Spam.severity_level(), 2);
    assert_eq!(ThreatType::Pup.severity_level(), 1);
}

#[test]
fn test_cache_functionality() {
    let config = MailGuardConfig { dns_timeout: 5000, enable_cache: true, cache_ttl: 300 * 1000 };
    let detector = MailGuard::with_config(config);

    let result1 = check_domain_with(&detector, "example.com", &LookupOutcome::NoRecords);
    assert!(result1.is_ok());
    assert!(!result1.unwrap().from_cache);

    let result2 = check_domain_with(&detector, "example.com", &LookupOutcome::NoRecords);
    assert!(result2.is_ok());
    assert!(result2.unwrap().from_cache);
}

#[test]
fn test_batch_processing() {
    let detector = MailGuard::new();
    let emails = vec!["test1@example.com", "test2@example.org", "invalid-email"];

    let results: Vec<Result<EmailStatus, MailGuardError>> = emails
        .iter()
        .map(|e| check_email_with(&detector, e, &LookupOutcome::NoRecords))
        .collect();
    assert_eq!(results.len(), 3);

    assert!(results[0].is_ok());
    assert!(results[1].is_ok());
    assert!(results[2].is_err());
}

#[test]
fn test_email_domain_extraction() {
    let detector = MailGuard::new();

    let result = check_email_with(&detector, "user@sub.example.com", &LookupOutcome::NoRecords);
    assert!(result.is_ok());

    let status = result.unwrap();
    assert_eq!(status.domain, "sub.example.com");
    assert_eq!(status.email, "user@sub.example.com");
}

#[test]
fn test_cache_stats() {
    let detector = MailGuard::new();
    assert_eq!(detector.cache_stats(), Some(0));

    let _ = check_domain_with(&detector, "example.com", &LookupOutcome::NoRecords);
    assert_eq!(detector.cache_stats(), Some(1));

    detector.clear_cache();
    assert_eq!(detector.cache_stats(), Some(0));
}

#[test]
fn test_disabled_cache() {
    let config = MailGuardConfig { dns_timeout: 5000, enable_cache: false, cache_ttl: 300 * 1000 };
    let detector = MailGuard::with_config(config);

    let cache_stats = detector.cache_stats();
    assert!(cache_stats.is_none() || cache_stats == Some(0));

    let result = check_domain_with(&detector, "example.com", &LookupOutcome::NoRecords);
    assert!(result.is_ok());
    assert!(!result.unwrap().from_cache);
}

#[test]
fn test_threat_descriptions() {
    assert_eq!(ThreatType::Spam.description(), "Spam Source");
    assert_eq!(ThreatType::Phishing.description(), "Phishing Website");
    assert_eq!(ThreatType::Malware.description(), "Malware");
    assert_eq!(ThreatType::Botnet.description(), "Botnet");
    assert_eq!(ThreatType::Pup.description(), "Potentially Unwanted Program");
    assert_eq!(ThreatType::Unknown(42).description(), "Unknown Threat Type");
}

#[test]
fn classification_table_covers_every_code() {
    for code in [2u8, 9] {
        assert_eq!(ThreatType::from_ip_last_octet(code), ThreatType::Spam);
        assert_eq!(ThreatType::from_ip_last_octet(code).severity_level(), 2);
    }
    assert_eq!(ThreatType::from_ip_last_octet(3).severity_level(), 4);
    for code in [4u8, 6, 7, 11] {
        assert_eq!(ThreatType::from_ip_last_octet(code), ThreatType::Malware);
        assert_eq!(ThreatType::from_ip_last_octet(code).severity_level(), 5);
    }
    assert_eq!(ThreatType::from_ip_last_octet(5).severity_level(), 4);
    assert_eq!(ThreatType::from_ip_last_octet(10).severity_level(), 1);
    for code in [0u8, 1, 8, 12, 42, 255] {
        assert_eq!(ThreatType::from_ip_last_octet(code), ThreatType::Unknown(code));
        assert_eq!(ThreatType::from_ip_last_octet(code).severity_level(), 3);
    }
}

#[test]
fn invalid_emails_give_invalid_email_error() {
    let guard = MailGuard::new();
    for e in ["invalid-email", "@missing-user.com", "missing-domain@"] {
        assert!(matches!(guard.begin_email_check(e), Err(MailGuardError::InvalidEmail(_))));
    }
    assert!(matches!(
        guard.begin_email_check("a@-bad.com"),
        Err(MailGuardError::InvalidEmail(_))
    ));
    assert!(guard.begin_email_check("first.last+tag@mail.example.co").is_ok());
}

#[test]
fn invalid_domains_give_invalid_domain_error() {
    let guard = MailGuard::new();
    for d in ["", ".example.com", "example..com", "example.com.", "exa mple.com", "a_b.com"] {
        assert!(matches!(guard.begin_domain_check(d), Err(MailGuardError::InvalidDomain(_))));
    }
    let long = "a".repeat(254);
    assert!(matches!(validate_domain(&long), Err(MailGuardError::InvalidDomain(_))));
    assert!(validate_domain(&"a".repeat(253)).is_ok());
    assert!(validate_domain("sub-domain.example.com").is_ok());
}

#[test]
fn email_domain_is_lower_cased_and_looked_up_under_the_zone() {
    let guard = MailGuard::new();
    let (domain, query) = lookup_of(guard.begin_email_check("User@Sub.Example.COM").unwrap());
    assert_eq!(domain, "sub.example.com");
    assert_eq!(query, "sub.example.com.tempmail.so.multi.surbl.org");
}

#[test]
fn second_check_of_same_domain_comes_from_cache_with_same_classification() {
    let guard = MailGuard::new();
    let listed = LookupOutcome::Addresses(vec![vec![127, 0, 0, 3]]);
    let first = check_domain_with(&guard, "Phish.example", &listed).unwrap();
    assert!(!first.from_cache);
    assert_eq!(first.threat_type, Some(ThreatType::Phishing));
    assert!(first.is_threat);
    let second = cached_of(guard.begin_domain_check("phish.EXAMPLE").unwrap());
    assert!(second.from_cache);
    assert_eq!(second.threat_type, Some(ThreatType::Phishing));
    assert_eq!(second.domain, "phish.example");
}

#[test]
fn failed_lookup_is_an_error_and_is_not_cached() {
    let guard = MailGuard::new();
    let failed = LookupOutcome::Failed("timed out".to_string());
    let r = check_domain_with(&guard, "example.com", &failed);
    assert_eq!(r, Err(MailGuardError::DnsError("timed out".to_string())));
    assert_eq!(guard.cache_stats(), Some(0));
    lookup_of(guard.begin_domain_check("example.com").unwrap());
}

#[test]
fn disabled_cache_never_answers() {
    let config = MailGuardConfig { dns_timeout: 5000, enable_cache: false, cache_ttl: 1000 };
    let guard = MailGuard::with_config(config);
    assert_eq!(guard.cache_stats(), None);
    let listed = LookupOutcome::Addresses(vec![vec![127, 0, 0, 2]]);
    let first = check_domain_with(&guard, "spam.example", &listed).unwrap();
    assert!(!first.from_cache);
    lookup_of(guard.begin_domain_check("spam.example").unwrap());
}

#[test]
fn first_positive_address_decides() {
    let addrs = LookupOutcome::Addresses(vec![
        vec![10, 0, 0, 4],
        vec![127, 0, 0, 1],
        vec![0; 16],
        vec![127, 0, 0, 5],
        vec![127, 0, 0, 4],
    ]);
    assert_eq!(interpret_lookup(&addrs), Ok(Some(ThreatType::Botnet)));
    let none = LookupOutcome::Addresses(vec![vec![127, 0, 0, 1], vec![127, 0, 1, 2]]);
    assert_eq!(interpret_lookup(&none), Ok(None));
    assert_eq!(interpret_lookup(&LookupOutcome::Addresses(vec![])), Ok(None));
    assert_eq!(interpret_lookup(&LookupOutcome::NoRecords), Ok(None));
    assert_eq!(interpret_lookup(&LookupOutcome::Addresses(vec![vec![127, 0, 0, 42]])), Ok(Some(ThreatType::Unknown(42))));
}

#[test]
fn positive_response_shape() {
    assert!(is_surbl_positive_response(&vec![127, 0, 0, 2]));
    assert!(!is_surbl_positive_response(&vec![127, 0, 0, 1]));
    assert!(!is_surbl_positive_response(&vec![127, 1, 0, 2]));
    assert!(!is_surbl_positive_response(&vec![127, 0, 0, 2, 0]));
}

#[test]
fn lookup_name_appends_zone() {
    assert_eq!(lookup_name("example.com"), "example.com.tempmail.so.multi.surbl.org");
}

#[test]
fn extract_domain_takes_text_after_last_at() {
    assert_eq!(extract_domain("a@b@c.com"), Ok("c.com".to_string()));
    assert!(matches!(extract_domain("abc"), Err(MailGuardError::InvalidEmail(_))));
    assert!(matches!(extract_domain("abc@"), Err(MailGuardError::InvalidEmail(_))));
}

#[test]
fn email_status_carries_domain_result() {
    let d = DomainStatus {
        domain: "x.org".to_string(),
        is_threat: true,
        threat_type: Some(ThreatType::Pup),
        from_cache: true,
    };
    let e = email_status("me@x.org", d);
    assert_eq!(e.email, "me@x.org");
    assert_eq!(e.domain, "x.org");
    assert!(e.is_threat);
    assert_eq!(e.threat_type, Some(ThreatType::Pup));
    assert!(e.from_cache);
}

#[test]
fn default_config_values() {
    let c = MailGuardConfig::default();
    assert_eq!(c.dns_timeout, 5000);
    assert!(c.enable_cache);
    assert_eq!(c.cache_ttl, 300000);
    assert_eq!(MailGuard::new().config().cache_ttl, 300000);
}

#[test]
fn store_level_checks_hit_after_store_and_refuse_without_touching_store() {
    let mut store = CacheStore::with_ttl(100);
    let (domain, _) = lookup_of(begin_domain_check_at(&mut store, "Example.com", 1000).unwrap());
    assert_eq!(store.len(), 0);
    let listed = LookupOutcome::Addresses(vec![vec![127, 0, 0, 9]]);
    let first = complete_domain_check_at(&mut store, domain, &listed, 1000).unwrap();
    assert_eq!(first.threat_type, Some(ThreatType::Spam));
    assert_eq!(store.len(), 1);

    let hit = cached_of(begin_email_check_at(&mut store, "someone@EXAMPLE.COM", 1100).unwrap());
    assert!(hit.from_cache);
    assert_eq!(hit.threat_type, Some(ThreatType::Spam));
    assert_eq!(hit.domain, "example.com");

    assert!(matches!(
        begin_domain_check_at(&mut store, "bad..example", 1100),
        Err(MailGuardError::InvalidDomain(_))
    ));
    assert!(matches!(
        begin_email_check_at(&mut store, "no-at-sign", 1100),
        Err(MailGuardError::InvalidEmail(_))
    ));
    assert_eq!(store.len(), 1);

    let (d, _) = lookup_of(begin_domain_check_at(&mut store, "example.com", 1101).unwrap());
    assert_eq!(store.len(), 0);
    let failed = LookupOutcome::Failed("server failure".to_string());
    assert!(complete_domain_check_at(&mut store, d, &failed, 1101).is_err());
    assert_eq!(store.len(), 0);

    let (d, _) = lookup_of(begin_domain_check_at(&mut store, "clean.example", 1200).unwrap());
    complete_domain_check_at(&mut store, d, &LookupOutcome::NoRecords, 1200).unwrap();
    let clean = cached_of(begin_domain_check_at(&mut store, "clean.example", 1250).unwrap());
    assert_eq!(clean.threat_type, None);
    assert!(!clean.is_threat);
}

#[test]
fn mailbox_grammar() {
    assert!(is_mailbox_address("a@b"));
    assert!(is_mailbox_address("o'neil.x+y@a-b.c0m"));
    assert!(!is_mailbox_address("a@b@c"));
    assert!(!is_mailbox_address("a b@c.com"));
    assert!(!is_mailbox_address("a@c.com."));
    assert!(!is_mailbox_address("a@c-.com"));
    assert!(!is_mailbox_address("a@exämple.com"));
    let label63 = "a".repeat(63);
    let label64 = "a".repeat(64);
    assert!(is_host_name(&format!("{label63}.com")));
    assert!(!is_host_name(&format!("{label64}.com")));
    assert!(!is_host_name(""));
    assert!(!is_host_name("a..b"));
}

#[test]
fn domain_length_counts_characters() {
    let wide = format!("{}.com", "é".repeat(200));
    assert!(validate_domain(&wide).is_ok());
    let too_long = format!("{}.com", "é".repeat(250));
    assert!(matches!(validate_domain(&too_long), Err(MailGuardError::InvalidDomain(_))));
}
