pub mod canister;
pub mod cbor;
pub mod cbor_laws;
pub mod certtree;
pub mod crypto;
pub mod gateway;
pub mod keys;
pub mod laws;
pub mod sock;
pub mod types;

use vstd::prelude::*;

verus! {

/// Errors surfaced by the message-plane operations. The host-facing
/// entry points turn some of these into traps; the library reports
/// them as values so that callers decide.
#[derive(Clone, Copy, PartialEq, Eq, Structural, Debug)]
pub enum WsError {
    /// Malformed Ed25519 key handed to registration.
    BadKey,
    /// An operation referenced a client id that is not registered.
    UnknownClient,
    /// A CBOR envelope did not decode to the expected shape.
    MalformedEnvelope,
}

/// Outbound messages older than this many nanoseconds are evicted.
pub const MSG_TIMEOUT_NS: u64 = 300_000_000_000;

/// Largest number of messages a single poll returns.
pub const MAX_RETURNED_MESSAGES: usize = 50;

/// First client id ever assigned.
pub const INITIAL_CLIENT_ID: u64 = 16;

/// First message nonce ever assigned.
pub const INITIAL_NONCE: u64 = 16;

} // verus!
