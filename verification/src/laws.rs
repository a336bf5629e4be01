//! The plane's cross-operation guarantees, stated over the transition
//! shapes that the operations' contracts establish and proved once for
//! every state.

use crate::keys::{key_seq, lex_lt};
use crate::sock::{expired_count, KeyGatewayTime, WsState};
use crate::MSG_TIMEOUT_NS;
use vstd::prelude::*;

verus! {

/// What a successful registration does to the id counter: it returns
/// the counter and steps it. `ws_register`'s contract establishes this
/// for every accepted key.
pub open spec fn register_step(pre: WsState, post: WsState, r: u64) -> bool {
    &&& r == pre.next_client_id
    &&& post.next_client_id == pre.next_client_id + 1
}

/// Client ids are handed out strictly increasing: of two successive
/// registrations, the second returns the larger id. With a fresh
/// state's counter at its initial value, the ids are 16, 17, 18, ...
pub proof fn lemma_register_ids_monotone(s0: WsState, s1: WsState, s2: WsState, r1: u64, r2: u64)
    requires
        register_step(s0, s1, r1),
        register_step(s1, s2, r2),
    ensures
        r1 < r2,
{
}

/// What a send does to the nonce counter: the new message's key is
/// built from the counter, which then steps.
/// `send_message_from_canister`'s contract establishes this whenever
/// the client has an open gateway.
pub open spec fn send_step(pre: WsState, post: WsState, n: u64) -> bool {
    &&& n == pre.next_message_nonce
    &&& post.next_message_nonce == pre.next_message_nonce + 1
}

/// Nonces are drawn strictly increasing from the one shared counter,
/// and for one gateway the keys they stamp order the same way
/// lexicographically: a message issued before another carries the
/// smaller nonce and the lexicographically smaller key.
pub proof fn lemma_send_nonces_monotone(
    s0: WsState,
    s1: WsState,
    s2: WsState,
    n1: u64,
    n2: u64,
    gw: Seq<char>,
)
    requires
        send_step(s0, s1, n1),
        send_step(s1, s2, n2),
    ensures
        n1 < n2,
        lex_lt(key_seq(gw, n1), key_seq(gw, n2)),
{
    crate::keys::lemma_key_order(gw, n1, n2);
}

/// What a send does to one client's outbound counter: the message
/// carries the stored next sequence number (0 for a fresh client) and
/// the counter steps past it. `send_message_from_canister`'s contract
/// establishes this whenever the client has an open gateway.
pub open spec fn send_to_client_step(pre: WsState, post: WsState, c: u64, sn: u64) -> bool {
    &&& sn == if pre.client_message_num_map@.contains_key(c) {
        pre.client_message_num_map@[c]
    } else {
        0u64
    }
    &&& post.client_message_num_map@ == pre.client_message_num_map@.insert(c, (sn + 1) as u64)
}

/// Outbound sequence numbers run 0, 1, 2, ... without gaps: a client's
/// first message carries 0, and each later message carries exactly one
/// more than the message before it.
pub proof fn lemma_outbound_seq_consecutive(
    s0: WsState,
    s1: WsState,
    s2: WsState,
    c: u64,
    sn1: u64,
    sn2: u64,
)
    requires
        send_to_client_step(s0, s1, c, sn1),
        send_to_client_step(s1, s2, c, sn2),
        sn1 < u64::MAX,
    ensures
        sn2 == sn1 + 1,
        !s0.client_message_num_map@.contains_key(c) ==> sn1 == 0,
{
}

/// What closing a client does: its five table entries go, everything
/// else stays. `ws_close`'s contract establishes this for every call.
pub open spec fn close_step(pre: WsState, post: WsState, c: u64) -> bool {
    &&& post.client_caller_map@ == pre.client_caller_map@.remove(c)
    &&& post.client_public_key_map@ == pre.client_public_key_map@.remove(c)
    &&& post.client_gateway_map@ == pre.client_gateway_map@.remove(c)
    &&& post.client_message_num_map@ == pre.client_message_num_map@.remove(c)
    &&& post.client_incoming_num_map@ == pre.client_incoming_num_map@.remove(c)
    &&& post.next_client_id == pre.next_client_id
    &&& post.next_message_nonce == pre.next_message_nonce
    &&& post.gateway_queues == pre.gateway_queues
    &&& post.delete_queue == pre.delete_queue
    &&& post.cert_tree == pre.cert_tree
}

/// Closing is idempotent: closing a client twice leaves exactly the
/// state that closing it once left.
pub proof fn lemma_close_idempotent(s0: WsState, s1: WsState, s2: WsState, c: u64)
    requires
        close_step(s0, s1, c),
        close_step(s1, s2, c),
    ensures
        s2.client_caller_map@ == s1.client_caller_map@,
        s2.client_public_key_map@ == s1.client_public_key_map@,
        s2.client_gateway_map@ == s1.client_gateway_map@,
        s2.client_message_num_map@ == s1.client_message_num_map@,
        s2.client_incoming_num_map@ == s1.client_incoming_num_map@,
        s2.next_client_id == s1.next_client_id,
        s2.next_message_nonce == s1.next_message_nonce,
        s2.gateway_queues == s1.gateway_queues,
        s2.delete_queue == s1.delete_queue,
        s2.cert_tree == s1.cert_tree,
{
    assert(s0.client_caller_map@.remove(c).remove(c) =~= s0.client_caller_map@.remove(c));
    assert(s0.client_public_key_map@.remove(c).remove(c) =~= s0.client_public_key_map@.remove(c));
    assert(s0.client_gateway_map@.remove(c).remove(c) =~= s0.client_gateway_map@.remove(c));
    assert(s0.client_message_num_map@.remove(c).remove(c) =~= s0.client_message_num_map@.remove(
        c,
    ));
    assert(s0.client_incoming_num_map@.remove(c).remove(c) =~= s0.client_incoming_num_map@.remove(
        c,
    ));
}

/// Appending an entry that is not yet expired leaves the expired
/// prefix as it was.
proof fn lemma_expired_count_push_unexpired(dq: Seq<KeyGatewayTime>, e: KeyGatewayTime, now: u64)
    requires
        !(e.time + MSG_TIMEOUT_NS < now),
    ensures
        expired_count(dq.push(e), now) == expired_count(dq, now),
    decreases dq.len(),
{
    if dq.len() == 0 {
        assert(dq.push(e)[0] == e);
    } else {
        assert(dq.push(e)[0] == dq[0]);
        assert(dq.push(e).drop_first() =~= dq.drop_first().push(e));
        lemma_expired_count_push_unexpired(dq.drop_first(), e, now);
    }
}

/// Each send drains the expired backlog: with `E` expired entries at
/// its head before the send, the delete queue afterwards — the old
/// entries less the first `min(2, E)`, plus the fresh entry stamped
/// `now` — has `max(E - 2, 0)` expired entries. So as long as sends
/// keep coming, every message's queue residency stays near the
/// timeout: each send retires up to two overdue messages and adds one
/// fresh one. `send_message_from_canister`'s contract on the delete
/// queue establishes the premise.
pub proof fn lemma_send_drains_expired(
    dq0: Seq<KeyGatewayTime>,
    dqf: Seq<KeyGatewayTime>,
    e: KeyGatewayTime,
    now: u64,
)
    requires
        e.time == now,
        ({
            let ec = expired_count(dq0, now);
            let k = if ec >= 2 {
                2int
            } else {
                ec
            };
            dqf == dq0.subrange(k, dq0.len() as int).push(e)
        }),
    ensures
        expired_count(dqf, now) == if expired_count(dq0, now) >= 2 {
            expired_count(dq0, now) - 2
        } else {
            0
        },
{
    let ec = expired_count(dq0, now);
    let k = if ec >= 2 {
        2int
    } else {
        ec
    };
    lemma_expired_count_nonneg_here(dq0, now);
    lemma_expired_count_subrange(dq0, now, k);
    lemma_expired_count_push_unexpired(dq0.subrange(k, dq0.len() as int), e, now);
}

proof fn lemma_expired_count_nonneg_here(dq: Seq<KeyGatewayTime>, now: u64)
    ensures
        expired_count(dq, now) >= 0,
        expired_count(dq, now) <= dq.len(),
    decreases dq.len(),
{
    if dq.len() > 0 && dq[0].time + MSG_TIMEOUT_NS < now {
        lemma_expired_count_nonneg_here(dq.drop_first(), now);
    }
}

/// Dropping `k` entries off an expired prefix leaves `E - k` expired.
proof fn lemma_expired_count_subrange(dq: Seq<KeyGatewayTime>, now: u64, k: int)
    requires
        0 <= k <= expired_count(dq, now),
    ensures
        expired_count(dq.subrange(k, dq.len() as int), now) == expired_count(dq, now) - k,
    decreases k,
{
    lemma_expired_count_nonneg_here(dq, now);
    if k == 0 {
        assert(dq.subrange(0, dq.len() as int) =~= dq);
    } else {
        assert(dq.len() > 0 && dq[0].time + MSG_TIMEOUT_NS < now);
        lemma_expired_count_subrange(dq.drop_first(), now, k - 1);
        assert(dq.drop_first().subrange(k - 1, dq.drop_first().len() as int) =~= dq.subrange(
            k,
            dq.len() as int,
        ));
    }
}

} // verus!
