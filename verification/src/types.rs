//! The payload shapes that travel between clients, gateways and the
//! canister message plane.

use vstd::prelude::*;

verus! {

/// Inner payload, the same shape in both directions: an application
/// message wrapped with its addressee and its position in the stream.
#[derive(Clone, PartialEq, Eq)]
pub struct WebsocketMessage {
    /// To or from client id.
    pub client_id: u64,
    /// Messages arrive with sequence numbers 0, 1, 2, ... in each direction.
    pub sequence_num: u64,
    /// When the message was made, in nanoseconds, for the recipient to inspect.
    pub timestamp: u64,
    /// Application payload, opaque bytes.
    pub message: Vec<u8>,
}

/// One message in the list returned to a gateway polling for messages.
#[derive(Clone, PartialEq, Eq)]
pub struct EncodedMessage {
    /// The client that the gateway will forward the message to.
    pub client_id: u64,
    /// Key under which the message's digest sits in the certified tree.
    pub key: String,
    /// Encoded `WebsocketMessage`.
    pub val: Vec<u8>,
}

/// The batch a poll returns: messages plus one certificate and one
/// serialised witness covering all of their keys.
#[derive(Clone, PartialEq, Eq)]
pub struct CertMessages {
    pub messages: Vec<EncodedMessage>,
    pub cert: Vec<u8>,
    pub tree: Vec<u8>,
}

/// The frame a gateway forwards to one client: one message together
/// with the batch's certificate and witness.
#[derive(Clone, PartialEq, Eq)]
pub struct CertMessage {
    pub key: String,
    pub val: Vec<u8>,
    pub cert: Vec<u8>,
    pub tree: Vec<u8>,
}

/// The envelope a client signs: encoded message bytes plus signature.
#[derive(Clone, PartialEq, Eq)]
pub struct ClientMessage {
    pub val: Vec<u8>,
    pub sig: Vec<u8>,
}

/// The first message of the handshake names the client and the canister.
#[derive(Clone, PartialEq, Eq)]
pub struct FirstMessage {
    pub client_id: u64,
    /// Canister identity in its textual form, as UTF-8 bytes.
    pub canister_id: Vec<u8>,
}

/// The demo application's payload: a piece of text, held as UTF-8 bytes.
#[derive(Clone, PartialEq, Eq)]
pub struct AppMessage {
    pub text: Vec<u8>,
}

} // verus!
