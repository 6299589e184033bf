//! A value-custody ledger: identities deposit into a shared pool, and pooled
//! or newly attached value is sent on to a recipient as a gift.
//!
//! The host supplies the caller's identity and the attached amount of each
//! call as plain values, and enacts the transfer that a gift returns.

pub mod laws;
pub mod ledger;
pub mod table;
