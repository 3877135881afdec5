//! Recipient resolution pipeline: classification of a raw delimited
//! recipient expression into `to`/`cc` candidate lists, order-preserving
//! set utilities, directory-resolution decision logic, an allow-list
//! domain filter, and the final textual rendering of the address line.

use vstd::prelude::*;

pub mod classify;
pub mod filter;
pub mod format;
pub mod resolve;
pub mod setops;
pub mod strutil;

verus! {

/// Error taxonomy of the pipeline. Transport and configuration failures
/// are fatal for an invocation; per-entry misses are not errors and are
/// absorbed by the stage that sees them.
#[derive(Clone, Copy, Debug, PartialEq, Eq, Structural)]
pub enum MailError {
    /// Configuration file missing, unreadable, or malformed.
    ConfigError,
    /// Classification produced no `to` and no `cc` entry.
    EmptyRecipients,
    /// Connection failure against the directory service.
    DirectoryUnavailable,
    /// Bind (authentication) failure against the directory service.
    AuthFailed,
    /// An attachment path does not name a readable file.
    AttachmentInvalid,
    /// Failure of the outgoing mail transport.
    TransportError,
    /// A content-type name outside the accepted set.
    InvalidContentType,
    /// An address rejected by the allow-list filter.
    FilterRejected,
}

} // verus!
