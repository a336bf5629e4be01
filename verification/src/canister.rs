//! The host-facing operations of the message plane — registration,
//! open, message, close, poll, wipe — and the demo echo application's
//! hooks that ride on them.
//!
//! The host supplies the caller identity, the clock and its data
//! certificate; they enter here as plain parameters. Operations whose
//! interface contract is to trap on bad input return an error value
//! instead, with the state unchanged, and the embedding traps on it.

use crate::cbor::{
    dec_app_message, dec_client_message, dec_first_message, dec_websocket_message,
    decode_app_message,
    decode_client_message, decode_first_message, decode_websocket_message, enc_app_message,
    enc_websocket_message, encode_app_message,
};
use crate::crypto::{ed25519_valid, ed25519_verify};
use crate::keys::key_seq;
use crate::sock::WsState;
use crate::types::{AppMessage, CertMessages, WebsocketMessage};
use crate::WsError;
use vstd::prelude::*;

verus! {

/// The demo application's greeting payload.
pub open spec fn ping_text() -> Seq<u8> {
    seq!['p' as u8, 'i' as u8, 'n' as u8, 'g' as u8]
}

/// What the demo application appends to every echoed payload.
pub open spec fn ping_suffix() -> Seq<u8> {
    seq![' ' as u8, 'p' as u8, 'i' as u8, 'n' as u8, 'g' as u8]
}

/// Registers a client: records its Ed25519 key bytes and the caller
/// that owns it, and hands out the next client id. A key that is not
/// exactly 32 bytes is rejected and nothing changes.
pub fn ws_register(state: &mut WsState, caller: String, public_key: Vec<u8>) -> (r: Result<
    u64,
    WsError,
>)
    requires
        old(state).wf(),
        old(state).next_client_id < u64::MAX,
    ensures
        final(state).wf(),
        public_key@.len() != 32 ==> r == Err::<u64, WsError>(WsError::BadKey) && *final(state)
            == *old(state),
        public_key@.len() == 32 ==> ({
            &&& r == Ok::<u64, WsError>(old(state).next_client_id)
            &&& final(state).next_client_id == old(state).next_client_id + 1
            &&& final(state).client_public_key_map@ == old(state).client_public_key_map@.insert(
                old(state).next_client_id,
                public_key,
            )
            &&& final(state).client_caller_map@ == old(state).client_caller_map@.insert(
                old(state).next_client_id,
                caller,
            )
            &&& final(state).next_message_nonce == old(state).next_message_nonce
            &&& final(state).client_gateway_map@ == old(state).client_gateway_map@
            &&& final(state).client_message_num_map@ == old(state).client_message_num_map@
            &&& final(state).client_incoming_num_map@ == old(state).client_incoming_num_map@
            &&& final(state).gateway_queues == old(state).gateway_queues
            &&& final(state).delete_queue == old(state).delete_queue
            &&& final(state).cert_tree == old(state).cert_tree
        }),
{
    if public_key.len() != 32 {
        return Err(WsError::BadKey);
    }
    let client_id = state.next_client_id();
    state.put_client_public_key(client_id, public_key);
    state.put_client_caller(client_id, caller);
    Ok(client_id)
}

/// A client's public key bytes, or `UnknownClient` for an id that is
/// not registered.
pub fn ws_get_client_key(state: &WsState, client_id: u64) -> (r: Result<Vec<u8>, WsError>)
    ensures
        match r {
            Ok(k) => state.client_public_key_map@.contains_key(client_id) && k@
                == state.client_public_key_map@[client_id]@,
            Err(e) => e == WsError::UnknownClient && !state.client_public_key_map@.contains_key(
                client_id,
            ),
        },
{
    match state.get_client_public_key(client_id) {
        Some(k) => Ok(k),
        None => Err(WsError::UnknownClient),
    }
}

/// Sends one application payload to a client, wrapped with the next
/// outbound sequence number; returns the new labelled root hash to
/// publish, or `None` when the client has no open gateway.
pub fn ws_send_app_message(state: &mut WsState, client_id: u64, msg: AppMessage, now: u64) -> (r:
    Option<Vec<u8>>)
    requires
        old(state).wf(),
        old(state).next_message_nonce < u64::MAX,
        old(state).client_message_num_map@.contains_key(client_id) ==> old(
            state,
        ).client_message_num_map@[client_id] < u64::MAX,
        old(state).delete_queue@.len() > 0 ==> old(state).delete_queue@.last().time <= now,
    ensures
        final(state).wf(),
        !old(state).client_gateway_map@.contains_key(client_id) ==> r is None && *final(state)
            == *old(state),
        old(state).client_gateway_map@.contains_key(client_id) ==> ({
            let gw = old(state).client_gateway_map@[client_id]@;
            &&& r is Some
            &&& crate::sock::send_effect(
                *old(state),
                *final(state),
                client_id,
                gw,
                enc_app_message(msg.text@),
                now,
            )
            &&& final(state).client_gateway_map@ == old(state).client_gateway_map@
            &&& final(state).client_incoming_num_map@ == old(state).client_incoming_num_map@
        }),
{
    let bytes = encode_app_message(&msg);
    state.send_message_from_canister(client_id, bytes, now)
}

/// The demo application's open hook: greets a newly opened client.
pub fn ws_on_open(state: &mut WsState, client_id: u64, now: u64) -> (r: Option<Vec<u8>>)
    requires
        old(state).wf(),
        old(state).next_message_nonce < u64::MAX,
        old(state).client_message_num_map@.contains_key(client_id) ==> old(
            state,
        ).client_message_num_map@[client_id] < u64::MAX,
        old(state).delete_queue@.len() > 0 ==> old(state).delete_queue@.last().time <= now,
    ensures
        final(state).wf(),
        !old(state).client_gateway_map@.contains_key(client_id) ==> r is None && *final(state)
            == *old(state),
        old(state).client_gateway_map@.contains_key(client_id) ==> ({
            let gw = old(state).client_gateway_map@[client_id]@;
            &&& r is Some
            &&& crate::sock::send_effect(
                *old(state),
                *final(state),
                client_id,
                gw,
                enc_app_message(ping_text()),
                now,
            )
            &&& final(state).client_gateway_map@ == old(state).client_gateway_map@
            &&& final(state).client_incoming_num_map@ == old(state).client_incoming_num_map@
        }),
{
    let text = vec!['p' as u8, 'i' as u8, 'n' as u8, 'g' as u8];
    proof {
        assert(text@ =~= ping_text());
    }
    let msg = AppMessage { text };
    ws_send_app_message(state, client_id, msg, now)
}

/// The demo application's message hook: echoes the payload's text with
/// " ping" appended. A payload that does not decode is rejected and
/// nothing changes.
pub fn ws_on_message(state: &mut WsState, content: WebsocketMessage, now: u64) -> (r: Result<
    Option<Vec<u8>>,
    WsError,
>)
    requires
        old(state).wf(),
        old(state).next_message_nonce < u64::MAX,
        old(state).client_message_num_map@.contains_key(content.client_id) ==> old(
            state,
        ).client_message_num_map@[content.client_id] < u64::MAX,
        old(state).delete_queue@.len() > 0 ==> old(state).delete_queue@.last().time <= now,
    ensures
        final(state).wf(),
        dec_app_message(content.message@) is None ==> r == Err::<Option<Vec<u8>>, WsError>(
            WsError::MalformedEnvelope,
        ) && *final(state) == *old(state),
        dec_app_message(content.message@) is Some ==> ({
            let t = dec_app_message(content.message@)->Some_0;
            let gw = old(state).client_gateway_map@[content.client_id]@;
            &&& r is Ok
            &&& (!old(state).client_gateway_map@.contains_key(content.client_id) ==> *final(state)
                == *old(state))
            &&& (old(state).client_gateway_map@.contains_key(content.client_id)
                ==> crate::sock::send_effect(
                *old(state),
                *final(state),
                content.client_id,
                gw,
                enc_app_message(t + ping_suffix()),
                now,
            ))
            &&& final(state).client_gateway_map@ == old(state).client_gateway_map@
            &&& final(state).client_incoming_num_map@ == old(state).client_incoming_num_map@
        }),
{
    let app = match decode_app_message(&content.message) {
        None => {
            return Err(WsError::MalformedEnvelope);
        },
        Some(a) => a,
    };
    let mut text = app.text;
    text.push(' ' as u8);
    text.push('p' as u8);
    text.push('i' as u8);
    text.push('n' as u8);
    text.push('g' as u8);
    proof {
        assert(text@ =~= dec_app_message(content.message@)->Some_0 + ping_suffix());
    }
    let reply = AppMessage { text };
    Ok(ws_send_app_message(state, content.client_id, reply, now))
}

/// Opens a client's connection: checks the envelope's signature against
/// the registered key, binds the caller as the client's gateway, and
/// runs the application's open hook. A bad signature returns `false`
/// and changes nothing; a malformed envelope or unknown client is an
/// error with nothing changed.
#[verifier::rlimit(50)]
pub fn ws_open(state: &mut WsState, caller: String, msg: Vec<u8>, sig: Vec<u8>, now: u64) -> (r:
    Result<bool, WsError>)
    requires
        old(state).wf(),
        old(state).next_message_nonce < u64::MAX,
        forall|c: u64|
            old(state).client_message_num_map@.contains_key(c) ==> (#[trigger] old(
                state,
            ).client_message_num_map@[c]) < u64::MAX,
        old(state).delete_queue@.len() > 0 ==> old(state).delete_queue@.last().time <= now,
    ensures
        final(state).wf(),
        dec_first_message(msg@) is None ==> r == Err::<bool, WsError>(WsError::MalformedEnvelope)
            && *final(state) == *old(state),
        dec_first_message(msg@) is Some ==> ({
            let cid = dec_first_message(msg@)->Some_0.0;
            &&& !old(state).client_public_key_map@.contains_key(cid) ==> r == Err::<
                bool,
                WsError,
            >(WsError::UnknownClient) && *final(state) == *old(state)
            &&& old(state).client_public_key_map@.contains_key(cid) ==> ({
                let pk = old(state).client_public_key_map@[cid]@;
                &&& !ed25519_valid(pk, msg@, sig@) ==> r == Ok::<bool, WsError>(false) && *final(state) == *old(state)
                &&& ed25519_valid(pk, msg@, sig@) ==> ({
                    &&& r == Ok::<bool, WsError>(true)
                    &&& final(state).client_gateway_map@ == old(
                        state,
                    ).client_gateway_map@.insert(cid, caller)
                    &&& crate::sock::send_effect(
                        *old(state),
                        *final(state),
                        cid,
                        caller@,
                        enc_app_message(ping_text()),
                        now,
                    )
                    &&& final(state).client_incoming_num_map@ == old(
                        state,
                    ).client_incoming_num_map@
                })
            })
        }),
{
    let first = match decode_first_message(&msg) {
        None => {
            return Err(WsError::MalformedEnvelope);
        },
        Some(f) => f,
    };
    let client_id = first.client_id;
    let client_key = match state.get_client_public_key(client_id) {
        None => {
            return Err(WsError::UnknownClient);
        },
        Some(k) => k,
    };
    if ed25519_verify(&client_key, &msg, &sig) {
        let ghost pre = *state;
        state.put_client_gateway(client_id, caller);
        let ghost mid = *state;
        ws_on_open(state, client_id, now);
        proof {
            assert(crate::sock::send_effect(
                mid,
                *state,
                client_id,
                caller@,
                enc_app_message(ping_text()),
                now,
            ));
            assert(crate::sock::send_effect(
                pre,
                *state,
                client_id,
                caller@,
                enc_app_message(ping_text()),
                now,
            ));
        }
        Ok(true)
    } else {
        Ok(false)
    }
}

/// Accepts one client-to-canister envelope: checks the signature over
/// the inner message bytes and the inbound sequence number; on success
/// advances the expected sequence number and runs the application's
/// message hook. A bad signature or sequence returns `false` with
/// nothing changed; a malformed envelope or unknown client is an error
/// with nothing changed.
#[verifier::rlimit(50)]
pub fn ws_message(state: &mut WsState, msg: Vec<u8>, now: u64) -> (r: Result<bool, WsError>)
    requires
        old(state).wf(),
        old(state).next_message_nonce < u64::MAX,
        forall|c: u64|
            old(state).client_message_num_map@.contains_key(c) ==> (#[trigger] old(
                state,
            ).client_message_num_map@[c]) < u64::MAX,
        forall|c: u64|
            old(state).client_incoming_num_map@.contains_key(c) ==> (#[trigger] old(
                state,
            ).client_incoming_num_map@[c]) < u64::MAX,
        old(state).delete_queue@.len() > 0 ==> old(state).delete_queue@.last().time <= now,
    ensures
        final(state).wf(),
        dec_client_message(msg@) is None ==> r == Err::<bool, WsError>(WsError::MalformedEnvelope)
            && *final(state) == *old(state),
        dec_client_message(msg@) is Some ==> ({
            let env = dec_client_message(msg@)->Some_0;
            &&& dec_websocket_message(env.0) is None ==> r == Err::<bool, WsError>(
                WsError::MalformedEnvelope,
            ) && *final(state) == *old(state)
            &&& dec_websocket_message(env.0) is Some ==> ({
                let w = dec_websocket_message(env.0)->Some_0;
                let cid = w.0;
                let sn = w.1;
                let expected = if old(state).client_incoming_num_map@.contains_key(cid) {
                    old(state).client_incoming_num_map@[cid]
                } else {
                    0u64
                };
                &&& !old(state).client_public_key_map@.contains_key(cid) ==> r == Err::<
                    bool,
                    WsError,
                >(WsError::UnknownClient) && *final(state) == *old(state)
                &&& old(state).client_public_key_map@.contains_key(cid) ==> ({
                    let pk = old(state).client_public_key_map@[cid]@;
                    &&& !ed25519_valid(pk, env.0, env.1) ==> r == Ok::<bool, WsError>(false)
                        && *final(state) == *old(state)
                    &&& (ed25519_valid(pk, env.0, env.1) && sn != expected) ==> r == Ok::<
                        bool,
                        WsError,
                    >(false) && *final(state) == *old(state)
                    &&& (ed25519_valid(pk, env.0, env.1) && sn == expected && dec_app_message(w.3)
                        is None) ==> r == Err::<bool, WsError>(WsError::MalformedEnvelope)
                        && *final(state) == *old(state)
                    &&& (ed25519_valid(pk, env.0, env.1) && sn == expected && dec_app_message(w.3)
                        is Some) ==> ({
                        let t = dec_app_message(w.3)->Some_0;
                        let gw = old(state).client_gateway_map@[cid]@;
                        &&& r == Ok::<bool, WsError>(true)
                        &&& final(state).client_incoming_num_map@ == old(
                            state,
                        ).client_incoming_num_map@.insert(cid, (sn + 1) as u64)
                        &&& final(state).client_gateway_map@ == old(state).client_gateway_map@
                        &&& (old(state).client_gateway_map@.contains_key(cid)
                            ==> crate::sock::send_effect(
                            *old(state),
                            *final(state),
                            cid,
                            gw,
                            enc_app_message(t + ping_suffix()),
                            now,
                        ))
                        &&& (!old(state).client_gateway_map@.contains_key(cid) ==> (final(state).gateway_queues == old(state).gateway_queues && final(state).delete_queue == old(state).delete_queue && final(state).cert_tree == old(state).cert_tree
                            && final(state).next_message_nonce == old(state).next_message_nonce
                            && final(state).client_message_num_map@ == old(state).client_message_num_map@
                            && final(state).client_caller_map@ == old(state).client_caller_map@
                            && final(state).client_public_key_map@ == old(state).client_public_key_map@
                            && final(state).next_client_id == old(state).next_client_id))
                    })
                })
            })
        }),
{
    let envelope = match decode_client_message(&msg) {
        None => {
            return Err(WsError::MalformedEnvelope);
        },
        Some(e) => e,
    };
    let content = match decode_websocket_message(&envelope.val) {
        None => {
            return Err(WsError::MalformedEnvelope);
        },
        Some(c) => c,
    };
    let client_id = content.client_id;
    let client_key = match state.get_client_public_key(client_id) {
        None => {
            return Err(WsError::UnknownClient);
        },
        Some(k) => k,
    };
    if !ed25519_verify(&client_key, &envelope.val, &envelope.sig) {
        return Ok(false);
    }
    let expected = state.get_client_incoming_num(client_id);
    if content.sequence_num != expected {
        return Ok(false);
    }
    if decode_app_message(&content.message).is_none() {
        return Err(WsError::MalformedEnvelope);
    }
    let next = content.sequence_num + 1;
    match ws_on_message(state, content, now) {
        Err(e) => {
            return Err(e);
        },
        Ok(_) => {},
    }
    state.put_client_incoming_num(client_id, next);
    Ok(true)
}

/// Closes a client's connection: drops its table entries. Closing an
/// unknown or already closed client changes nothing, so closing twice
/// is the same as closing once.
pub fn ws_close(state: &mut WsState, client_id: u64)
    requires
        old(state).wf(),
    ensures
        final(state).wf(),
        final(state).client_caller_map@ == old(state).client_caller_map@.remove(client_id),
        final(state).client_public_key_map@ == old(state).client_public_key_map@.remove(client_id),
        final(state).client_gateway_map@ == old(state).client_gateway_map@.remove(client_id),
        final(state).client_message_num_map@ == old(state).client_message_num_map@.remove(
            client_id,
        ),
        final(state).client_incoming_num_map@ == old(state).client_incoming_num_map@.remove(
            client_id,
        ),
        final(state).next_client_id == old(state).next_client_id,
        final(state).next_message_nonce == old(state).next_message_nonce,
        final(state).gateway_queues == old(state).gateway_queues,
        final(state).delete_queue == old(state).delete_queue,
        final(state).cert_tree == old(state).cert_tree,
{
    state.delete_client(client_id);
}

/// A gateway's poll, under the host-provided certificate bytes: up to
/// the batch cap of queued messages whose nonce is at least `nonce`,
/// with the range witness over the returned keys.
pub fn ws_get_messages(state: &mut WsState, gateway: String, nonce: u64, cert: Vec<u8>) -> (r:
    CertMessages)
    requires
        old(state).wf(),
    ensures
        final(state).wf(),
        final(state).next_client_id == old(state).next_client_id,
        final(state).next_message_nonce == old(state).next_message_nonce,
        final(state).client_public_key_map@ == old(state).client_public_key_map@,
        final(state).client_gateway_map@ == old(state).client_gateway_map@,
        final(state).client_message_num_map@ == old(state).client_message_num_map@,
        final(state).client_incoming_num_map@ == old(state).client_incoming_num_map@,
        final(state).delete_queue == old(state).delete_queue,
        final(state).cert_tree == old(state).cert_tree,
        exists|gi: int|
            0 <= gi < final(state).gateway_queues@.len() && #[trigger] crate::sock::gw_of(
                final(state).gateway_queues@,
                gi,
            ) == gateway@ && ({
                let q = crate::sock::q_of(final(state).gateway_queues@, gi);
                exists|s: int|
                    #[trigger] crate::sock::is_partition_point(q, nonce, s) && ({
                        let e = crate::sock::batch_end(q, s);
                        &&& r.messages@.len() == e - s
                        &&& (forall|m: int|
                            0 <= m < e - s ==> ((#[trigger] r.messages@[m]).client_id == q[s
                                + m].msg.client_id && r.messages@[m].key@ == q[s + m].msg.key@
                                && r.messages@[m].val@ == q[s + m].msg.val@))
                        &&& e > s ==> r.cert@ == cert@ && r.tree@
                            == crate::certtree::range_witness_of(
                            final(state).cert_tree,
                            q[s].msg.key@,
                            q[e - 1].msg.key@,
                            crate::sock::label_seq(),
                        )
                        &&& e == s ==> r.cert@.len() == 0 && r.tree@.len() == 0
                    })
            }),
{
    state.get_cert_messages(gateway, nonce, cert)
}

/// Wipes all canister state back to its initial values.
pub fn ws_wipe(state: &mut WsState)
    ensures
        final(state).wf(),
        final(state).next_client_id == crate::INITIAL_CLIENT_ID,
        final(state).next_message_nonce == crate::INITIAL_NONCE,
        final(state).client_caller_map@ == Map::<u64, String>::empty(),
        final(state).client_public_key_map@ == Map::<u64, Vec<u8>>::empty(),
        final(state).client_gateway_map@ == Map::<u64, String>::empty(),
        final(state).client_message_num_map@ == Map::<u64, u64>::empty(),
        final(state).client_incoming_num_map@ == Map::<u64, u64>::empty(),
        final(state).gateway_queues@.len() == 0,
        final(state).delete_queue@.len() == 0,
        crate::certtree::tree_entries(final(state).cert_tree) == crate::certtree::no_entries(),
{
    state.wipe();
}

} // verus!
