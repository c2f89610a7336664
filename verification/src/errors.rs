use vstd::prelude::*;

verus! {

/// Authentication failures surfaced by the token service and credential bridge.
#[derive(Clone, Copy, Debug, PartialEq, Eq, Structural)]
pub enum AuthError {
    /// The remote mail server rejected the presented credentials.
    InvalidCredentials,
    /// A token whose embedded expiry lies in the past.
    Expired,
    /// A token that is malformed or carries a wrong signature.
    Invalid,
    /// The remote mail server could not be reached.
    Unreachable,
    /// The bounded connection timeout elapsed.
    Timeout,
}

/// Synchronization failures surfaced by the mailbox synchronization engine.
#[derive(Clone, Copy, Debug, PartialEq, Eq, Structural)]
pub enum SyncError {
    /// The remote server stayed unreachable after the single retry.
    RemoteUnavailable,
    /// The folder name is permanently invalid on the remote server.
    NoSuchFolder,
    /// The referenced message does not exist in the local snapshot.
    NotFound,
}

/// Delivery failures surfaced by the outbound delivery pipeline.
#[derive(Clone, Copy, Debug, PartialEq, Eq, Structural)]
pub enum DeliveryError {
    /// The request named no primary recipient.
    NoRecipients,
    /// The remote server rejected a recipient or the message itself.
    Rejected,
    /// The delivery session could not be opened.
    Unreachable,
}

} // verus!
