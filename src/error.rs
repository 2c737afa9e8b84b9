use vstd::prelude::*;

verus! {

/// Why a check failed.
#[derive(Debug, Clone, PartialEq, Eq)]
pub enum MailGuardError {
    /// The block-list lookup itself failed (timeout, server or network
    /// failure); holds the resolver's message. Not the same as "not listed".
    DnsError(String),
    /// The input is not a well-formed mailbox, or its domain part is empty.
    InvalidEmail(String),
    /// The input is not a well-formed domain.
    InvalidDomain(String),
}

} // verus!
