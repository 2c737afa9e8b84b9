//! Reputation checks for e-mail addresses and domains against a DNS-based
//! block list, with a time-bounded cache of classifications.

pub mod cache;
pub mod detector;
pub mod dns;
pub mod error;
pub mod threat;

pub use detector::{DomainStatus, DomainStep, EmailStatus, MailGuard, MailGuardConfig};
pub use dns::LookupOutcome;
pub use error::MailGuardError;
pub use threat::ThreatType;
