//! The canister message plane's state: per-client identity and
//! sequence tables, per-gateway outbound queues, the global delete
//! queue ordered by enqueue time, and the certified message tree.

use crate::cbor::enc_websocket_message;
use crate::certtree::{
    labeled_root, labeled_root_of, range_witness, range_witness_of, single_witness,
    single_witness_of, tree_delete, tree_entries, tree_insert, tree_new, tree_reset, CertTree,
};
use crate::crypto::{sha256, sha256_of};
use crate::keys::{key_seq, make_key};
use crate::types::{CertMessages, EncodedMessage};
use crate::{INITIAL_CLIENT_ID, INITIAL_NONCE, MAX_RETURNED_MESSAGES, MSG_TIMEOUT_NS};
use std::collections::HashMap;
use std::collections::VecDeque;
use vstd::prelude::*;

verus! {

broadcast use vstd::std_specs::hash::group_hash_axioms, vstd::std_specs::vecdeque::group_vec_dequeue_axioms;

/// The label under which the tree's root hash is published.
pub open spec fn label_seq() -> Seq<u8> {
    seq![
        'w' as u8,
        'e' as u8,
        'b' as u8,
        's' as u8,
        'o' as u8,
        'c' as u8,
        'k' as u8,
        'e' as u8,
        't' as u8,
    ]
}

/// The label as a runtime value.
pub fn label_websocket() -> (r: Vec<u8>)
    ensures
        r@ == label_seq(),
{
    let r = vec![
        'w' as u8,
        'e' as u8,
        'b' as u8,
        's' as u8,
        'o' as u8,
        'c' as u8,
        'k' as u8,
        'e' as u8,
        't' as u8,
    ];
    proof {
        assert(r@ =~= label_seq());
    }
    r
}

/// An outbound message queued for a gateway, paired with the nonce its
/// key was built from.
#[derive(Clone)]
pub struct QueuedMessage {
    pub nonce: u64,
    pub msg: EncodedMessage,
}

/// One gateway's FIFO of queued outbound messages.
pub struct GatewayQueue {
    pub gateway: String,
    pub messages: VecDeque<QueuedMessage>,
}

/// An entry of the delete queue: which key was enqueued for which
/// gateway, and when.
#[derive(Clone)]
pub struct KeyGatewayTime {
    pub key: String,
    pub gateway: String,
    pub time: u64,
}

/// The whole message-plane state.
pub struct WsState {
    pub next_client_id: u64,
    pub next_message_nonce: u64,
    pub client_caller_map: HashMap<u64, String>,
    pub client_public_key_map: HashMap<u64, Vec<u8>>,
    pub client_gateway_map: HashMap<u64, String>,
    pub client_message_num_map: HashMap<u64, u64>,
    pub client_incoming_num_map: HashMap<u64, u64>,
    pub gateway_queues: Vec<GatewayQueue>,
    pub delete_queue: VecDeque<KeyGatewayTime>,
    pub cert_tree: CertTree,
}

/// The keys of a queue's entries, in queue order.
pub open spec fn q_keys(q: Seq<QueuedMessage>) -> Seq<Seq<char>> {
    q.map_values(|e: QueuedMessage| e.msg.key@)
}

/// The delete-queue keys that belong to one gateway, in queue order.
pub open spec fn dq_proj(dq: Seq<KeyGatewayTime>, gw: Seq<char>) -> Seq<Seq<char>>
    decreases dq.len(),
{
    if dq.len() == 0 {
        Seq::empty()
    } else if dq[0].gateway@ == gw {
        seq![dq[0].key@] + dq_proj(dq.drop_first(), gw)
    } else {
        dq_proj(dq.drop_first(), gw)
    }
}

/// A well-formed gateway queue: nonces strictly increase along the
/// queue, stay below the global counter, and every entry's key is the
/// gateway's key for its nonce, addressed to its own client id.
pub open spec fn queue_wf(q: Seq<QueuedMessage>, gw: Seq<char>, bound: u64) -> bool {
    &&& forall|i: int, j: int|
        0 <= i < j < q.len() ==> #[trigger] q[i].nonce < #[trigger] q[j].nonce
    &&& forall|i: int|
        0 <= i < q.len() ==> (#[trigger] q[i].nonce < bound && q[i].msg.key@ == key_seq(
            gw,
            q[i].nonce,
        ))
}

/// The gateway name at an index of the queue list.
pub open spec fn gw_of(queues: Seq<GatewayQueue>, gi: int) -> Seq<char> {
    queues[gi].gateway@
}

/// The queue contents at an index of the queue list.
pub open spec fn q_of(queues: Seq<GatewayQueue>, gi: int) -> Seq<QueuedMessage> {
    queues[gi].messages@
}

/// Well-formedness of the queues, the delete queue and the certified
/// tree together: gateway names are distinct; each queue is
/// well-formed; delete-queue times never decrease; every delete-queue
/// entry belongs to a listed gateway; per gateway, the delete queue
/// carries exactly the queue's keys in order; and the tree maps every
/// queued key to the digest of its message bytes.
pub open spec fn plane_wf(
    queues: Seq<GatewayQueue>,
    dq: Seq<KeyGatewayTime>,
    tree: CertTree,
    bound: u64,
) -> bool {
    &&& forall|i: int, j: int|
        0 <= i < j < queues.len() ==> #[trigger] gw_of(queues, i) != #[trigger] gw_of(queues, j)
    &&& forall|gi: int|
        0 <= gi < queues.len() ==> queue_wf(#[trigger] q_of(queues, gi), gw_of(queues, gi), bound)
    &&& forall|i: int, j: int|
        0 <= i < j < dq.len() ==> #[trigger] dq[i].time <= #[trigger] dq[j].time
    &&& forall|k: int|
        0 <= k < dq.len() ==> exists|gi: int|
            0 <= gi < queues.len() && #[trigger] dq[k].gateway@ == gw_of(queues, gi)
    &&& forall|gi: int|
        0 <= gi < queues.len() ==> dq_proj(dq, gw_of(queues, gi)) == q_keys(
            #[trigger] q_of(queues, gi),
        )
    &&& forall|gi: int, i: int|
        0 <= gi < queues.len() && 0 <= i < q_of(queues, gi).len() ==> tree_entries(
            tree,
        ).contains_key((#[trigger] q_of(queues, gi)[i]).msg.key@) && tree_entries(tree)[q_of(
            queues,
            gi,
        )[i].msg.key@] == sha256_of(q_of(queues, gi)[i].msg.val@)
}

impl WsState {
    /// Structural well-formedness of the whole state.
    pub open spec fn wf(self) -> bool {
        &&& INITIAL_CLIENT_ID <= self.next_client_id
        &&& INITIAL_NONCE <= self.next_message_nonce
        &&& plane_wf(
            self.gateway_queues@,
            self.delete_queue@,
            self.cert_tree,
            self.next_message_nonce,
        )
    }

    /// A fresh state: counters at their initial values, every table
    /// empty, the certified tree empty.
    pub fn new() -> (s: WsState)
        ensures
            s.wf(),
            s.next_client_id == INITIAL_CLIENT_ID,
            s.next_message_nonce == INITIAL_NONCE,
            s.client_caller_map@ == Map::<u64, String>::empty(),
            s.client_public_key_map@ == Map::<u64, Vec<u8>>::empty(),
            s.client_gateway_map@ == Map::<u64, String>::empty(),
            s.client_message_num_map@ == Map::<u64, u64>::empty(),
            s.client_incoming_num_map@ == Map::<u64, u64>::empty(),
            s.gateway_queues@.len() == 0,
            s.delete_queue@.len() == 0,
            tree_entries(s.cert_tree) == crate::certtree::no_entries(),
    {
        let mut tree = tree_new();
        tree_reset(&mut tree);
        let s = WsState {
            next_client_id: INITIAL_CLIENT_ID,
            next_message_nonce: INITIAL_NONCE,
            client_caller_map: HashMap::new(),
            client_public_key_map: HashMap::new(),
            client_gateway_map: HashMap::new(),
            client_message_num_map: HashMap::new(),
            client_incoming_num_map: HashMap::new(),
            gateway_queues: Vec::new(),
            delete_queue: VecDeque::new(),
            cert_tree: tree,
        };
        s
    }

    /// Wipes all state back to the fresh values; the next client id and
    /// the next message nonce start over at their initial values.
    pub fn wipe(&mut self)
        ensures
            final(self).wf(),
            final(self).next_client_id == INITIAL_CLIENT_ID,
            final(self).next_message_nonce == INITIAL_NONCE,
            final(self).client_caller_map@ == Map::<u64, String>::empty(),
            final(self).client_public_key_map@ == Map::<u64, Vec<u8>>::empty(),
            final(self).client_gateway_map@ == Map::<u64, String>::empty(),
            final(self).client_message_num_map@ == Map::<u64, u64>::empty(),
            final(self).client_incoming_num_map@ == Map::<u64, u64>::empty(),
            final(self).gateway_queues@.len() == 0,
            final(self).delete_queue@.len() == 0,
            tree_entries(final(self).cert_tree) == crate::certtree::no_entries(),
    {
        self.next_client_id = INITIAL_CLIENT_ID;
        self.next_message_nonce = INITIAL_NONCE;
        self.client_caller_map.clear();
        self.client_public_key_map.clear();
        self.client_gateway_map.clear();
        self.client_message_num_map.clear();
        self.client_incoming_num_map.clear();
        self.gateway_queues = Vec::new();
        self.delete_queue.clear();
        tree_reset(&mut self.cert_tree);
    }

    /// Allocates the next client id: returns the counter and steps it.
    pub fn next_client_id(&mut self) -> (r: u64)
        requires
            old(self).next_client_id < u64::MAX,
        ensures
            r == old(self).next_client_id,
            final(self).next_client_id == r + 1,
            final(self).next_message_nonce == old(self).next_message_nonce,
            final(self).client_caller_map@ == old(self).client_caller_map@,
            final(self).client_public_key_map@ == old(self).client_public_key_map@,
            final(self).client_gateway_map@ == old(self).client_gateway_map@,
            final(self).client_message_num_map@ == old(self).client_message_num_map@,
            final(self).client_incoming_num_map@ == old(self).client_incoming_num_map@,
            final(self).gateway_queues == old(self).gateway_queues,
            final(self).delete_queue == old(self).delete_queue,
            final(self).cert_tree == old(self).cert_tree,
            old(self).wf() ==> final(self).wf(),
    {
        let r = self.next_client_id;
        self.next_client_id = r + 1;
        r
    }

    /// Records a client's public key bytes.
    pub fn put_client_public_key(&mut self, client_id: u64, client_key: Vec<u8>)
        ensures
            final(self).client_public_key_map@ == old(self).client_public_key_map@.insert(
                client_id,
                client_key,
            ),
            final(self).next_client_id == old(self).next_client_id,
            final(self).next_message_nonce == old(self).next_message_nonce,
            final(self).client_caller_map@ == old(self).client_caller_map@,
            final(self).client_gateway_map@ == old(self).client_gateway_map@,
            final(self).client_message_num_map@ == old(self).client_message_num_map@,
            final(self).client_incoming_num_map@ == old(self).client_incoming_num_map@,
            final(self).gateway_queues == old(self).gateway_queues,
            final(self).delete_queue == old(self).delete_queue,
            final(self).cert_tree == old(self).cert_tree,
            old(self).wf() ==> final(self).wf(),
    {
        self.client_public_key_map.insert(client_id, client_key);
    }

    /// Fetches a client's public key bytes.
    pub fn get_client_public_key(&self, client_id: u64) -> (r: Option<Vec<u8>>)
        ensures
            match r {
                Some(k) => self.client_public_key_map@.contains_key(client_id) && k@
                    == self.client_public_key_map@[client_id]@,
                None => !self.client_public_key_map@.contains_key(client_id),
            },
    {
        match self.client_public_key_map.get(&client_id) {
            Some(k) => {
                let mut out: Vec<u8> = Vec::new();
                crate::cbor::push_all(&mut out, k);
                Some(out)
            },
            None => None,
        }
    }

    /// Records which caller registered a client.
    pub fn put_client_caller(&mut self, client_id: u64, caller: String)
        ensures
            final(self).client_caller_map@ == old(self).client_caller_map@.insert(
                client_id,
                caller,
            ),
            final(self).next_client_id == old(self).next_client_id,
            final(self).next_message_nonce == old(self).next_message_nonce,
            final(self).client_public_key_map@ == old(self).client_public_key_map@,
            final(self).client_gateway_map@ == old(self).client_gateway_map@,
            final(self).client_message_num_map@ == old(self).client_message_num_map@,
            final(self).client_incoming_num_map@ == old(self).client_incoming_num_map@,
            final(self).gateway_queues == old(self).gateway_queues,
            final(self).delete_queue == old(self).delete_queue,
            final(self).cert_tree == old(self).cert_tree,
            old(self).wf() ==> final(self).wf(),
    {
        self.client_caller_map.insert(client_id, caller);
    }

    /// Records which gateway serves a client; reopening overwrites.
    pub fn put_client_gateway(&mut self, client_id: u64, gateway: String)
        ensures
            final(self).client_gateway_map@ == old(self).client_gateway_map@.insert(
                client_id,
                gateway,
            ),
            final(self).next_client_id == old(self).next_client_id,
            final(self).next_message_nonce == old(self).next_message_nonce,
            final(self).client_caller_map@ == old(self).client_caller_map@,
            final(self).client_public_key_map@ == old(self).client_public_key_map@,
            final(self).client_message_num_map@ == old(self).client_message_num_map@,
            final(self).client_incoming_num_map@ == old(self).client_incoming_num_map@,
            final(self).gateway_queues == old(self).gateway_queues,
            final(self).delete_queue == old(self).delete_queue,
            final(self).cert_tree == old(self).cert_tree,
            old(self).wf() ==> final(self).wf(),
    {
        self.client_gateway_map.insert(client_id, gateway);
    }

    /// Fetches the gateway serving a client, if the connection is open.
    pub fn get_client_gateway(&self, client_id: u64) -> (r: Option<String>)
        ensures
            match r {
                Some(g) => self.client_gateway_map@.contains_key(client_id) && g
                    == self.client_gateway_map@[client_id],
                None => !self.client_gateway_map@.contains_key(client_id),
            },
    {
        match self.client_gateway_map.get(&client_id) {
            Some(g) => Some(g.clone()),
            None => None,
        }
    }

    /// The outbound sequence number a client's next message carries:
    /// returns the stored next value (0 for a fresh client) and steps it.
    pub fn next_client_message_num(&mut self, client_id: u64) -> (r: u64)
        requires
            old(self).client_message_num_map@.contains_key(client_id) ==> old(
                self,
            ).client_message_num_map@[client_id] < u64::MAX,
        ensures
            r == if old(self).client_message_num_map@.contains_key(client_id) {
                old(self).client_message_num_map@[client_id]
            } else {
                0u64
            },
            final(self).client_message_num_map@ == old(self).client_message_num_map@.insert(
                client_id,
                (r + 1) as u64,
            ),
            final(self).next_client_id == old(self).next_client_id,
            final(self).next_message_nonce == old(self).next_message_nonce,
            final(self).client_caller_map@ == old(self).client_caller_map@,
            final(self).client_public_key_map@ == old(self).client_public_key_map@,
            final(self).client_gateway_map@ == old(self).client_gateway_map@,
            final(self).client_incoming_num_map@ == old(self).client_incoming_num_map@,
            final(self).gateway_queues == old(self).gateway_queues,
            final(self).delete_queue == old(self).delete_queue,
            final(self).cert_tree == old(self).cert_tree,
            old(self).wf() ==> final(self).wf(),
    {
        let r = match self.client_message_num_map.get(&client_id) {
            Some(n) => *n,
            None => 0,
        };
        self.client_message_num_map.insert(client_id, r + 1);
        r
    }

    /// The inbound sequence number the client must use next; 0 for a
    /// client that has not sent yet.
    pub fn get_client_incoming_num(&self, client_id: u64) -> (r: u64)
        ensures
            r == if self.client_incoming_num_map@.contains_key(client_id) {
                self.client_incoming_num_map@[client_id]
            } else {
                0u64
            },
    {
        match self.client_incoming_num_map.get(&client_id) {
            Some(n) => *n,
            None => 0,
        }
    }

    /// Stores the inbound sequence number the client must use next.
    pub fn put_client_incoming_num(&mut self, client_id: u64, num: u64)
        ensures
            final(self).client_incoming_num_map@ == old(self).client_incoming_num_map@.insert(
                client_id,
                num,
            ),
            final(self).next_client_id == old(self).next_client_id,
            final(self).next_message_nonce == old(self).next_message_nonce,
            final(self).client_caller_map@ == old(self).client_caller_map@,
            final(self).client_public_key_map@ == old(self).client_public_key_map@,
            final(self).client_gateway_map@ == old(self).client_gateway_map@,
            final(self).client_message_num_map@ == old(self).client_message_num_map@,
            final(self).gateway_queues == old(self).gateway_queues,
            final(self).delete_queue == old(self).delete_queue,
            final(self).cert_tree == old(self).cert_tree,
            old(self).wf() ==> final(self).wf(),
    {
        self.client_incoming_num_map.insert(client_id, num);
    }

    /// Drops every table entry a client holds. Queued messages for the
    /// client stay and expire by age.
    pub fn delete_client(&mut self, client_id: u64)
        ensures
            final(self).client_caller_map@ == old(self).client_caller_map@.remove(client_id),
            final(self).client_public_key_map@ == old(self).client_public_key_map@.remove(
                client_id,
            ),
            final(self).client_gateway_map@ == old(self).client_gateway_map@.remove(client_id),
            final(self).client_message_num_map@ == old(self).client_message_num_map@.remove(
                client_id,
            ),
            final(self).client_incoming_num_map@ == old(self).client_incoming_num_map@.remove(
                client_id,
            ),
            final(self).next_client_id == old(self).next_client_id,
            final(self).next_message_nonce == old(self).next_message_nonce,
            final(self).gateway_queues == old(self).gateway_queues,
            final(self).delete_queue == old(self).delete_queue,
            final(self).cert_tree == old(self).cert_tree,
            old(self).wf() ==> final(self).wf(),
    {
        self.client_caller_map.remove(&client_id);
        self.client_public_key_map.remove(&client_id);
        self.client_gateway_map.remove(&client_id);
        self.client_message_num_map.remove(&client_id);
        self.client_incoming_num_map.remove(&client_id);
    }
}


/// What the tree's entries become after evicting the first `k`
/// delete-queue entries' keys.
pub open spec fn evicted_base(
    t0: Map<Seq<char>, Seq<u8>>,
    dq: Seq<KeyGatewayTime>,
    k: int,
) -> Map<Seq<char>, Seq<u8>> {
    if k <= 0 {
        t0
    } else if k == 1 {
        t0.remove(dq[0].key@)
    } else {
        t0.remove(dq[0].key@).remove(dq[1].key@)
    }
}

/// What one send to an open client does to the plane, short of the
/// returned root hash: the new message — the payload wrapped with the
/// client's next outbound sequence number and `now` — sits at the
/// tail of gateway `gw`'s queue under the key stamped from the old
/// nonce; the nonce and the client's outbound counter step; the
/// delete queue loses its expired head entries (at most two) and
/// gains the new key's entry stamped `now`; the tree loses exactly
/// the evicted keys and gains the new message's digest; the id
/// counter and the caller and key tables do not move. The gateway and
/// inbound tables are pinned by each caller: the open path binds the
/// gateway first, and the message path advances the inbound counter
/// after.
pub open spec fn send_effect(
    pre: WsState,
    post: WsState,
    client_id: u64,
    gw: Seq<char>,
    payload: Seq<u8>,
    now: u64,
) -> bool {
    let n = pre.next_message_nonce;
    let sn = if pre.client_message_num_map@.contains_key(client_id) {
        pre.client_message_num_map@[client_id]
    } else {
        0u64
    };
    let val = enc_websocket_message(client_id, sn, now, payload);
    let ec = expired_count(pre.delete_queue@, now);
    let k = if ec >= 2 {
        2int
    } else {
        ec
    };
    let dqo = pre.delete_queue@;
    let dqf = post.delete_queue@;
    let queuesf = post.gateway_queues@;
    &&& post.next_message_nonce == n + 1
    &&& post.client_message_num_map@ == pre.client_message_num_map@.insert(
        client_id,
        (sn + 1) as u64,
    )
    &&& dqf.len() == dqo.len() - k + 1
    &&& (forall|i: int| 0 <= i < dqo.len() - k ==> #[trigger] dqf[i] == dqo[k + i])
    &&& dqf.last().gateway@ == gw
    &&& dqf.last().key@ == key_seq(gw, n)
    &&& dqf.last().time == now
    &&& exists|gi: int|
        0 <= gi < queuesf.len() && #[trigger] gw_of(queuesf, gi) == gw && q_of(
            queuesf,
            gi,
        ).len() > 0 && q_of(queuesf, gi).last().nonce == n && q_of(
            queuesf,
            gi,
        ).last().msg.client_id == client_id && q_of(queuesf, gi).last().msg.key@ == key_seq(gw, n)
            && q_of(queuesf, gi).last().msg.val@ == val
    &&& tree_entries(post.cert_tree) == evicted_base(
        tree_entries(pre.cert_tree),
        dqo,
        k,
    ).insert(key_seq(gw, n), sha256_of(val))
    &&& post.next_client_id == pre.next_client_id
    &&& post.client_caller_map@ == pre.client_caller_map@
    &&& post.client_public_key_map@ == pre.client_public_key_map@
}

/// How many leading delete-queue entries are expired at time `now`.
pub open spec fn expired_count(dq: Seq<KeyGatewayTime>, now: u64) -> int
    decreases dq.len(),
{
    if dq.len() == 0 {
        0
    } else if dq[0].time + MSG_TIMEOUT_NS < now {
        1 + expired_count(dq.drop_first(), now)
    } else {
        0
    }
}

/// The expired-entry count is never negative.
proof fn lemma_expired_count_nonneg(dq: Seq<KeyGatewayTime>, now: u64)
    ensures
        expired_count(dq, now) >= 0,
    decreases dq.len(),
{
    if dq.len() > 0 && dq[0].time + MSG_TIMEOUT_NS < now {
        lemma_expired_count_nonneg(dq.drop_first(), now);
    }
}

/// A delete queue with no expired prefix has an unexpired head.
proof fn lemma_expired_zero(dq: Seq<KeyGatewayTime>, now: u64)
    requires
        expired_count(dq, now) == 0,
        dq.len() > 0,
    ensures
        !(dq[0].time + MSG_TIMEOUT_NS < now),
{
    lemma_expired_count_nonneg(dq.drop_first(), now);
}

/// Projection distributes over appending one delete-queue entry.
proof fn lemma_dq_proj_push(dq: Seq<KeyGatewayTime>, e: KeyGatewayTime, gw: Seq<char>)
    ensures
        dq_proj(dq.push(e), gw) == if e.gateway@ == gw {
            dq_proj(dq, gw).push(e.key@)
        } else {
            dq_proj(dq, gw)
        },
    decreases dq.len(),
{
    if dq.len() == 0 {
        assert(dq.push(e)[0] == e);
        assert(dq.push(e).drop_first() =~= dq);
        if e.gateway@ == gw {
            assert(dq_proj(dq.push(e), gw) =~= dq_proj(dq, gw).push(e.key@));
        }
    } else {
        assert(dq.push(e)[0] == dq[0]);
        assert(dq.push(e).drop_first() =~= dq.drop_first().push(e));
        lemma_dq_proj_push(dq.drop_first(), e, gw);
        if e.gateway@ == gw {
            assert(dq_proj(dq.push(e), gw) =~= dq_proj(dq, gw).push(e.key@));
        }
    }
}

/// A gateway that owns no delete-queue entry projects to nothing.
proof fn lemma_dq_proj_absent(dq: Seq<KeyGatewayTime>, gw: Seq<char>)
    requires
        forall|k: int| 0 <= k < dq.len() ==> (#[trigger] dq[k].gateway@) != gw,
    ensures
        dq_proj(dq, gw) == Seq::<Seq<char>>::empty(),
    decreases dq.len(),
{
    if dq.len() > 0 {
        assert(dq[0].gateway@ != gw);
        assert(forall|k: int|
            0 <= k < dq.drop_first().len() ==> (#[trigger] dq.drop_first()[k].gateway@) != gw);
        lemma_dq_proj_absent(dq.drop_first(), gw);
    }
}

/// The keys of a queue after dropping its front.
proof fn lemma_q_keys_drop_first(q: Seq<QueuedMessage>)
    requires
        q.len() > 0,
    ensures
        q_keys(q.drop_first()) == q_keys(q).drop_first(),
{
    assert(q_keys(q.drop_first()) =~= q_keys(q).drop_first());
}

/// The keys of a queue after pushing at its tail.
proof fn lemma_q_keys_push(q: Seq<QueuedMessage>, e: QueuedMessage)
    ensures
        q_keys(q.push(e)) == q_keys(q).push(e.msg.key@),
{
    assert(q_keys(q.push(e)) =~= q_keys(q).push(e.msg.key@));
}

impl WsState {
    /// Looks a gateway's queue up by name.
    fn find_gateway(&self, gateway: &String) -> (r: Option<usize>)
        ensures
            match r {
                Some(gi) => gi < self.gateway_queues@.len() && gw_of(self.gateway_queues@, gi as int)
                    == gateway@,
                None => forall|gi: int|
                    0 <= gi < self.gateway_queues@.len() ==> #[trigger] gw_of(
                        self.gateway_queues@,
                        gi,
                    ) != gateway@,
            },
    {
        let mut gi: usize = 0;
        while gi < self.gateway_queues.len()
            invariant
                gi <= self.gateway_queues@.len(),
                forall|j: int|
                    0 <= j < gi ==> #[trigger] gw_of(self.gateway_queues@, j) != gateway@,
            decreases self.gateway_queues@.len() - gi,
        {
            if self.gateway_queues[gi].gateway.eq(gateway) {
                return Some(gi);
            }
            gi += 1;
        }
        None
    }

    /// Removes one message from the front of the named gateway's queue
    /// and drops its key from the certified tree. The delete-queue
    /// entry that named it is the caller's to pop.
    pub fn delete_message(&mut self, message_info: &KeyGatewayTime)
        requires
            exists|gi: int|
                0 <= gi < old(self).gateway_queues@.len() && #[trigger] gw_of(
                    old(self).gateway_queues@,
                    gi,
                ) == message_info.gateway@ && q_of(old(self).gateway_queues@, gi).len() > 0,
            forall|i: int, j: int|
                0 <= i < j < old(self).gateway_queues@.len() ==> #[trigger] gw_of(
                    old(self).gateway_queues@,
                    i,
                ) != #[trigger] gw_of(old(self).gateway_queues@, j),
        ensures
            final(self).gateway_queues@.len() == old(self).gateway_queues@.len(),
            forall|gi: int|
                0 <= gi < old(self).gateway_queues@.len() ==> #[trigger] gw_of(
                    final(self).gateway_queues@,
                    gi,
                ) == gw_of(old(self).gateway_queues@, gi),
            forall|gi: int|
                0 <= gi < old(self).gateway_queues@.len() && #[trigger] gw_of(
                    old(self).gateway_queues@,
                    gi,
                ) != message_info.gateway@ ==> q_of(final(self).gateway_queues@, gi) == q_of(
                    old(self).gateway_queues@,
                    gi,
                ),
            forall|gi: int|
                0 <= gi < old(self).gateway_queues@.len() && #[trigger] gw_of(
                    old(self).gateway_queues@,
                    gi,
                ) == message_info.gateway@ ==> q_of(final(self).gateway_queues@, gi) == q_of(
                    old(self).gateway_queues@,
                    gi,
                ).drop_first(),
            tree_entries(final(self).cert_tree) == tree_entries(old(self).cert_tree).remove(
                message_info.key@,
            ),
            final(self).next_client_id == old(self).next_client_id,
            final(self).next_message_nonce == old(self).next_message_nonce,
            final(self).client_caller_map@ == old(self).client_caller_map@,
            final(self).client_public_key_map@ == old(self).client_public_key_map@,
            final(self).client_gateway_map@ == old(self).client_gateway_map@,
            final(self).client_message_num_map@ == old(self).client_message_num_map@,
            final(self).client_incoming_num_map@ == old(self).client_incoming_num_map@,
            final(self).delete_queue == old(self).delete_queue,
    {
        let gi = match self.find_gateway(&message_info.gateway) {
            Some(gi) => gi,
            None => {
                proof {
                    assert(false);
                }
                vstd::pervasive::unreached()
            },
        };
        let mut gq = self.gateway_queues.remove(gi);
        gq.messages.pop_front();
        self.gateway_queues.insert(gi, gq);
        tree_delete(&mut self.cert_tree, &message_info.key);
        proof {
            assert forall|j: int| 0 <= j < old(self).gateway_queues@.len() implies #[trigger] gw_of(
                self.gateway_queues@,
                j,
            ) == gw_of(old(self).gateway_queues@, j) && (gw_of(old(self).gateway_queues@, j)
                != message_info.gateway@ ==> q_of(self.gateway_queues@, j) == q_of(
                old(self).gateway_queues@,
                j,
            )) && (gw_of(old(self).gateway_queues@, j) == message_info.gateway@ ==> q_of(
                self.gateway_queues@,
                j,
            ) == q_of(old(self).gateway_queues@, j).drop_first()) by {
                assert(self.gateway_queues@ =~= old(self).gateway_queues@.update(
                    gi as int,
                    self.gateway_queues@[gi as int],
                ));
                if j == gi {
                    assert(q_of(self.gateway_queues@, j) =~= q_of(
                        old(self).gateway_queues@,
                        j,
                    ).drop_first());
                }
            }
        }
    }
}


impl WsState {
    /// Pops and evicts the delete queue's head when it has sat longer
    /// than the timeout at time `now`.
    fn evict_head_if_expired(&mut self, now: u64) -> (evicted: bool)
        requires
            old(self).wf(),
            old(self).delete_queue@.len() > 0 ==> old(self).delete_queue@.last().time <= now,
        ensures
            final(self).wf(),
            evicted == (old(self).delete_queue@.len() > 0 && old(self).delete_queue@[0].time
                + MSG_TIMEOUT_NS < now),
            evicted ==> final(self).delete_queue@ == old(self).delete_queue@.drop_first(),
            evicted ==> tree_entries(final(self).cert_tree) == tree_entries(
                old(self).cert_tree,
            ).remove(old(self).delete_queue@[0].key@),
            !evicted ==> final(self).delete_queue@ == old(self).delete_queue@,
            !evicted ==> final(self).cert_tree == old(self).cert_tree,
            final(self).next_client_id == old(self).next_client_id,
            final(self).next_message_nonce == old(self).next_message_nonce,
            final(self).client_caller_map@ == old(self).client_caller_map@,
            final(self).client_public_key_map@ == old(self).client_public_key_map@,
            final(self).client_gateway_map@ == old(self).client_gateway_map@,
            final(self).client_message_num_map@ == old(self).client_message_num_map@,
            final(self).client_incoming_num_map@ == old(self).client_incoming_num_map@,
    {
        if self.delete_queue.len() == 0 {
            return false;
        }
        let front_time = self.delete_queue[0].time;
        proof {
            let dq0 = self.delete_queue@;
            if dq0.len() > 1 {
                assert(dq0[0].time <= dq0[dq0.len() - 1].time);
            }
            assert(front_time <= now);
        }
        if now - front_time > MSG_TIMEOUT_NS {
            let ghost pre = *self;
            let ghost dq0 = self.delete_queue@;
            let ghost queues0 = self.gateway_queues@;
            let ghost g0 = dq0[0].gateway@;
            let ghost key0 = dq0[0].key@;
            proof {
                let gi0 = choose|gi: int|
                    0 <= gi < queues0.len() && #[trigger] dq0[0].gateway@ == gw_of(queues0, gi);
                assert(dq_proj(dq0, g0) == q_keys(q_of(queues0, gi0)));
                assert(dq_proj(dq0, g0)[0] == key0);
                assert(q_of(queues0, gi0).len() > 0);
                assert(q_of(queues0, gi0)[0].msg.key@ == key0);
            }
            let info = match self.delete_queue.pop_front() {
                Some(e) => e,
                None => vstd::pervasive::unreached(),
            };
            proof {
                let gi0 = choose|gi: int|
                    0 <= gi < queues0.len() && #[trigger] dq0[0].gateway@ == gw_of(queues0, gi);
                assert(info.gateway@ == g0);
                assert(0 <= gi0 < self.gateway_queues@.len() && gw_of(self.gateway_queues@, gi0)
                    == info.gateway@ && q_of(self.gateway_queues@, gi0).len() > 0);
            }
            self.delete_message(&info);
            proof {
                let gi0 = choose|gi: int|
                    0 <= gi < queues0.len() && #[trigger] dq0[0].gateway@ == gw_of(queues0, gi);
                let queues1 = self.gateway_queues@;
                let dq1 = self.delete_queue@;
                let tree1 = self.cert_tree;
                let bound = self.next_message_nonce;
                assert(dq1 =~= dq0.drop_first());
                let q0 = q_of(queues0, gi0);
                let n0 = q0[0].nonce;
                // distinct names carry over
                assert forall|i: int, j: int| 0 <= i < j < queues1.len() implies #[trigger] gw_of(
                    queues1,
                    i,
                ) != #[trigger] gw_of(queues1, j) by {
                    assert(gw_of(queues1, i) == gw_of(queues0, i));
                    assert(gw_of(queues1, j) == gw_of(queues0, j));
                }
                // each queue still well-formed
                assert forall|gi: int| 0 <= gi < queues1.len() implies queue_wf(
                    #[trigger] q_of(queues1, gi),
                    gw_of(queues1, gi),
                    bound,
                ) by {
                    assert(queue_wf(q_of(queues0, gi), gw_of(queues0, gi), bound));
                    if gw_of(queues0, gi) == g0 {
                        let q = q_of(queues0, gi);
                        let qd = q_of(queues1, gi);
                        assert(qd =~= q.drop_first());
                        assert forall|i: int, j: int| 0 <= i < j < qd.len() implies #[trigger] qd[i].nonce
                            < #[trigger] qd[j].nonce by {
                            assert(qd[i] == q[i + 1] && qd[j] == q[j + 1]);
                        }
                        assert forall|i: int| 0 <= i < qd.len() implies (#[trigger] qd[i].nonce < bound
                            && qd[i].msg.key@ == key_seq(gw_of(queues1, gi), qd[i].nonce)) by {
                            assert(qd[i] == q[i + 1]);
                        }
                    }
                }
                // delete-queue times stay sorted, gateways stay known
                assert forall|i: int, j: int| 0 <= i < j < dq1.len() implies #[trigger] dq1[i].time
                    <= #[trigger] dq1[j].time by {
                    assert(dq1[i] == dq0[i + 1] && dq1[j] == dq0[j + 1]);
                }
                assert forall|k: int| 0 <= k < dq1.len() implies exists|gi: int|
                    0 <= gi < queues1.len() && #[trigger] dq1[k].gateway@ == gw_of(queues1, gi) by {
                    assert(dq1[k] == dq0[k + 1]);
                    let gi = choose|gi: int|
                        0 <= gi < queues0.len() && #[trigger] dq0[k + 1].gateway@ == gw_of(
                            queues0,
                            gi,
                        );
                    assert(0 <= gi < queues1.len() && dq1[k].gateway@ == gw_of(queues1, gi));
                }
                // projections stay aligned
                assert forall|gi: int| 0 <= gi < queues1.len() implies dq_proj(
                    dq1,
                    gw_of(queues1, gi),
                ) == q_keys(#[trigger] q_of(queues1, gi)) by {
                    let g = gw_of(queues0, gi);
                    assert(gw_of(queues1, gi) == g);
                    assert(dq_proj(dq0, g) == q_keys(q_of(queues0, gi)));
                    if g == g0 {
                        assert(gi == gi0) by {
                            if gi != gi0 {
                                if gi < gi0 {
                                    assert(gw_of(queues0, gi) != gw_of(queues0, gi0));
                                } else {
                                    assert(gw_of(queues0, gi0) != gw_of(queues0, gi));
                                }
                            }
                        };
                        assert(dq_proj(dq0, g) == seq![key0] + dq_proj(dq1, g));
                        assert(dq_proj(dq1, g) =~= dq_proj(dq0, g).drop_first());
                        lemma_q_keys_drop_first(q0);
                        assert(q_of(queues1, gi) == q0.drop_first());
                        assert(dq_proj(dq1, g) == q_keys(q_of(queues1, gi)));
                    } else {
                        assert(dq_proj(dq0, g) == dq_proj(dq1, g));
                        assert(q_of(queues1, gi) == q_of(queues0, gi));
                    }
                }
                // the tree still covers every queued message
                assert forall|gi: int, i: int|
                    0 <= gi < queues1.len() && 0 <= i < q_of(queues1, gi).len() implies tree_entries(
                    tree1,
                ).contains_key((#[trigger] q_of(queues1, gi)[i]).msg.key@) && tree_entries(
                    tree1,
                )[q_of(queues1, gi)[i].msg.key@] == sha256_of(q_of(queues1, gi)[i].msg.val@) by {
                    let g = gw_of(queues0, gi);
                    let e = q_of(queues1, gi)[i];
                    if g == g0 && gi == gi0 {
                        assert(e == q0[i + 1]);
                        assert(e.msg.key@ == key_seq(g0, e.nonce));
                        assert(key0 == key_seq(g0, n0));
                        assert(q0[0].nonce < q0[i + 1].nonce);
                        if e.msg.key@ == key0 {
                            crate::keys::lemma_key_injective(g0, e.nonce, g0, n0);
                            assert(false);
                        }
                    } else {
                        assert(e == q_of(queues0, gi)[i]);
                        assert(e.msg.key@ == key_seq(g, e.nonce));
                        assert(key0 == key_seq(g0, n0));
                        if gi < gi0 {
                            assert(gw_of(queues0, gi) != gw_of(queues0, gi0));
                        } else {
                            assert(gw_of(queues0, gi0) != gw_of(queues0, gi));
                        }
                        if e.msg.key@ == key0 {
                            crate::keys::lemma_key_injective(g, e.nonce, g0, n0);
                            assert(false);
                        }
                    }
                }
            }
            true
        } else {
            false
        }
    }
}


impl WsState {
    /// Sends an application payload to a client: assigns the next
    /// outbound sequence number and the next global nonce, encodes the
    /// message, enqueues it for the client's gateway, records its
    /// digest in the certified tree, and returns the new labelled root
    /// hash for the host to publish. A client with no open gateway is
    /// dropped silently. At most two expired messages are evicted first.
    #[verifier::rlimit(100)]
    pub fn send_message_from_canister(&mut self, client_id: u64, msg: Vec<u8>, now: u64) -> (r:
        Option<Vec<u8>>)
        requires
            old(self).wf(),
            old(self).next_message_nonce < u64::MAX,
            old(self).client_message_num_map@.contains_key(client_id) ==> old(
                self,
            ).client_message_num_map@[client_id] < u64::MAX,
            old(self).delete_queue@.len() > 0 ==> old(self).delete_queue@.last().time <= now,
        ensures
            final(self).wf(),
            !old(self).client_gateway_map@.contains_key(client_id) ==> r is None && *final(self)
                == *old(self),
            old(self).client_gateway_map@.contains_key(client_id) ==> ({
                let gw = old(self).client_gateway_map@[client_id]@;
                &&& r is Some
                &&& r->Some_0@ == labeled_root_of(final(self).cert_tree, label_seq())
                &&& send_effect(*old(self), *final(self), client_id, gw, msg@, now)
                &&& final(self).client_gateway_map@ == old(self).client_gateway_map@
                &&& final(self).client_incoming_num_map@ == old(self).client_incoming_num_map@
            }),
    {
        let gw = match self.get_client_gateway(client_id) {
            None => {
                return None;
            },
            Some(g) => g,
        };
        let ghost dqpre = self.delete_queue@;
        let ghost tpre = self.cert_tree;
        let e1 = self.evict_head_if_expired(now);
        proof {
            if e1 && self.delete_queue@.len() > 0 {
                assert(self.delete_queue@.last() == dqpre.last());
            }
        }
        let mut e2 = false;
        if e1 {
            e2 = self.evict_head_if_expired(now);
        }
        proof {
            let ec = expired_count(dqpre, now);
            let k = if ec >= 2 {
                2int
            } else {
                ec
            };
            if dqpre.len() > 0 {
                lemma_expired_count_nonneg(dqpre.drop_first(), now);
                assert(expired_count(dqpre, now) > 0 ==> dqpre[0].time + MSG_TIMEOUT_NS < now);
            }
            assert(self.delete_queue@ =~= dqpre.subrange(k, dqpre.len() as int)) by {
                if ec == 0 {
                    assert(self.delete_queue@ =~= dqpre.subrange(0, dqpre.len() as int));
                } else if ec == 1 {
                    assert(expired_count(dqpre.drop_first(), now) == 0);
                    if dqpre.drop_first().len() > 0 {
                        lemma_expired_zero(dqpre.drop_first(), now);
                    }
                    assert(self.delete_queue@ =~= dqpre.subrange(1, dqpre.len() as int));
                } else {
                    assert(expired_count(dqpre.drop_first(), now) == ec - 1);
                    assert(ec - 1 >= 1);
                    assert(self.delete_queue@ =~= dqpre.drop_first().drop_first());
                    assert(self.delete_queue@ =~= dqpre.subrange(2, dqpre.len() as int));
                }
            };
            assert(tree_entries(self.cert_tree) == evicted_base(tree_entries(tpre), dqpre, k)) by {
                if ec == 0 {
                } else if ec == 1 {
                    assert(expired_count(dqpre.drop_first(), now) == 0);
                    if dqpre.drop_first().len() > 0 {
                        lemma_expired_zero(dqpre.drop_first(), now);
                    }
                } else {
                    assert(expired_count(dqpre.drop_first(), now) == ec - 1);
                    assert(ec - 1 >= 1);
                    assert(dqpre.drop_first()[0] == dqpre[1]);
                }
            };
        }
        let ghost s1 = *self;
        let n = self.next_message_nonce;
        self.next_message_nonce = n + 1;
        proof {
            assert forall|gi: int| 0 <= gi < self.gateway_queues@.len() implies queue_wf(
                #[trigger] q_of(self.gateway_queues@, gi),
                gw_of(self.gateway_queues@, gi),
                (n + 1) as u64,
            ) by {
                assert(queue_wf(q_of(s1.gateway_queues@, gi), gw_of(s1.gateway_queues@, gi), n));
            }
        }
        let sn = self.next_client_message_num(client_id);
        let key = make_key(&gw, n);
        let wsm = crate::types::WebsocketMessage {
            client_id,
            sequence_num: sn,
            timestamp: now,
            message: msg,
        };
        let val = crate::cbor::encode_websocket_message(&wsm);
        let digest = sha256(&val);
        tree_insert(&mut self.cert_tree, &key, &digest);
        let key_copy = key.clone();
        let gw_copy = gw.clone();
        self.delete_queue.push_back(
            KeyGatewayTime { key: key_copy, gateway: gw_copy, time: now },
        );
        let qm = QueuedMessage {
            nonce: n,
            msg: EncodedMessage { client_id, key: key.clone(), val },
        };
        let ghost s2 = *self;
        let gi = match self.find_gateway(&gw) {
            Some(gi) => {
                let mut gq = self.gateway_queues.remove(gi);
                gq.messages.push_back(qm);
                self.gateway_queues.insert(gi, gq);
                gi
            },
            None => {
                let mut messages: VecDeque<QueuedMessage> = VecDeque::new();
                messages.push_back(qm);
                let gi = self.gateway_queues.len();
                self.gateway_queues.push(GatewayQueue { gateway: gw.clone(), messages });
                gi
            },
        };
        let label = label_websocket();
        let root = labeled_root(&self.cert_tree, &label);
        proof {
            let bound = (n + 1) as u64;
            let gws = gw@;
            let kk = key_seq(gws, n);
            let queues0 = s1.gateway_queues@;
            let dq0 = s1.delete_queue@;
            let tree0 = s1.cert_tree;
            let queues2 = self.gateway_queues@;
            let dq2 = self.delete_queue@;
            let tree2 = self.cert_tree;
            let fresh = gi as int == queues0.len();
            assert(dq2 =~= dq0.push(dq2.last()));
            assert(dq2.last().gateway@ == gws && dq2.last().key@ == kk && dq2.last().time == now);
            assert(tree_entries(tree2) == tree_entries(tree0).insert(kk, digest@));
            if fresh {
                assert(queues2 =~= queues0.push(queues2.last()));
                assert(q_of(queues2, gi as int) =~= Seq::<QueuedMessage>::empty().push(qm));
            } else {
                assert(queues2 =~= queues0.update(gi as int, queues2[gi as int]));
                assert(q_of(queues2, gi as int) =~= q_of(queues0, gi as int).push(qm));
            }
            assert(gw_of(queues2, gi as int) == gws);
            assert forall|j: int| 0 <= j < queues0.len() && j != gi as int implies #[trigger] gw_of(
                queues2,
                j,
            ) == gw_of(queues0, j) && q_of(queues2, j) == q_of(queues0, j) by {}
            // distinct names
            assert forall|i: int, j: int| 0 <= i < j < queues2.len() implies #[trigger] gw_of(
                queues2,
                i,
            ) != #[trigger] gw_of(queues2, j) by {
                if fresh && j == gi as int {
                    assert(gw_of(queues0, i) != gws);
                } else {
                    assert(gw_of(queues0, i) != gw_of(queues0, j));
                }
            }
            // queues well formed at the stepped bound
            assert forall|j: int| 0 <= j < queues2.len() implies queue_wf(
                #[trigger] q_of(queues2, j),
                gw_of(queues2, j),
                bound,
            ) by {
                if j != gi as int {
                    assert(queue_wf(q_of(queues0, j), gw_of(queues0, j), bound));
                } else {
                    let q2 = q_of(queues2, j);
                    assert(q2.last() == qm);
                    assert(qm.nonce == n && qm.msg.key@ == kk);
                    if !fresh {
                        assert(queue_wf(q_of(queues0, j), gw_of(queues0, j), n as u64));
                        assert forall|a: int, b: int| 0 <= a < b < q2.len() implies #[trigger] q2[a].nonce
                            < #[trigger] q2[b].nonce by {
                            if b < q2.len() - 1 {
                                assert(q2[a] == q_of(queues0, j)[a] && q2[b] == q_of(queues0, j)[b]);
                            } else {
                                assert(q2[a] == q_of(queues0, j)[a]);
                                assert(q2[a].nonce < n);
                            }
                        }
                        assert forall|a: int| 0 <= a < q2.len() implies (#[trigger] q2[a].nonce < bound
                            && q2[a].msg.key@ == key_seq(gw_of(queues2, j), q2[a].nonce)) by {
                            if a < q2.len() - 1 {
                                assert(q2[a] == q_of(queues0, j)[a]);
                            }
                        }
                    }
                }
            }
            // delete-queue times sorted
            assert forall|i: int, j: int| 0 <= i < j < dq2.len() implies #[trigger] dq2[i].time
                <= #[trigger] dq2[j].time by {
                if j < dq2.len() - 1 {
                    assert(dq2[i] == dq0[i] && dq2[j] == dq0[j]);
                } else {
                    if i < dq2.len() - 1 {
                        assert(dq2[i] == dq0[i]);
                        assert(dq0.len() > 0 && dq0[i].time <= dq0.last().time);
                    }
                }
            }
            // delete-queue gateways known
            assert forall|c: int| 0 <= c < dq2.len() implies exists|j: int|
                0 <= j < queues2.len() && #[trigger] dq2[c].gateway@ == gw_of(queues2, j) by {
                if c < dq2.len() - 1 {
                    assert(dq2[c] == dq0[c]);
                    let j = choose|j: int|
                        0 <= j < queues0.len() && #[trigger] dq0[c].gateway@ == gw_of(queues0, j);
                    if j == gi as int {
                        assert(dq2[c].gateway@ == gw_of(queues2, j));
                    } else {
                        assert(dq2[c].gateway@ == gw_of(queues2, j));
                    }
                } else {
                    assert(dq2[c].gateway@ == gw_of(queues2, gi as int));
                }
            }
            // projections stay aligned
            assert forall|j: int| 0 <= j < queues2.len() implies dq_proj(dq2, gw_of(queues2, j))
                == q_keys(#[trigger] q_of(queues2, j)) by {
                let g = gw_of(queues2, j);
                lemma_dq_proj_push(dq0, dq2.last(), g);
                assert(dq2 == dq0.push(dq2.last()));
                if j == gi as int {
                    assert(g == gws);
                    if fresh {
                        assert forall|c: int| 0 <= c < dq0.len() implies (#[trigger] dq0[c].gateway@)
                            != gws by {
                            let jj = choose|jj: int|
                                0 <= jj < queues0.len() && #[trigger] dq0[c].gateway@ == gw_of(
                                    queues0,
                                    jj,
                                );
                            assert(gw_of(queues0, jj) != gws);
                        }
                        lemma_dq_proj_absent(dq0, gws);
                        assert(q_keys(q_of(queues2, j)) =~= Seq::<Seq<char>>::empty().push(kk));
                        assert(dq_proj(dq2, g) =~= Seq::<Seq<char>>::empty().push(kk));
                    } else {
                        assert(dq_proj(dq0, g) == q_keys(q_of(queues0, j)));
                        lemma_q_keys_push(q_of(queues0, j), qm);
                        assert(dq_proj(dq2, g) == dq_proj(dq0, g).push(kk));
                        assert(q_keys(q_of(queues2, j)) == q_keys(q_of(queues0, j)).push(kk));
                    }
                } else {
                    assert(g == gw_of(queues0, j));
                    assert(g != gws);
                    assert(dq_proj(dq2, g) == dq_proj(dq0, g));
                    assert(dq_proj(dq0, g) == q_keys(q_of(queues0, j)));
                    assert(q_of(queues2, j) == q_of(queues0, j));
                }
            }
            // the tree covers every queued message
            assert forall|j: int, i: int|
                0 <= j < queues2.len() && 0 <= i < q_of(queues2, j).len() implies tree_entries(
                tree2,
            ).contains_key((#[trigger] q_of(queues2, j)[i]).msg.key@) && tree_entries(
                tree2,
            )[q_of(queues2, j)[i].msg.key@] == sha256_of(q_of(queues2, j)[i].msg.val@) by {
                let e = q_of(queues2, j)[i];
                if j == gi as int && i == q_of(queues2, j).len() - 1 {
                    assert(e == qm);
                    assert(e.msg.key@ == kk && e.msg.val@ == val@);
                    assert(tree_entries(tree2)[kk] == digest@);
                } else {
                    assert(e == q_of(queues0, j)[i]);
                    assert(queue_wf(q_of(queues0, j), gw_of(queues0, j), n as u64));
                    assert(e.msg.key@ == key_seq(gw_of(queues0, j), e.nonce) && e.nonce < n);
                    if e.msg.key@ == kk {
                        crate::keys::lemma_key_injective(gw_of(queues0, j), e.nonce, gws, n);
                        assert(false);
                    }
                    assert(tree_entries(tree0).contains_key(e.msg.key@) && tree_entries(
                        tree0,
                    )[e.msg.key@] == sha256_of(e.msg.val@));
                }
            }
            assert(q_of(queues2, gi as int).last() == qm);
            let ec = expired_count(dqpre, now);
            let kk2 = if ec >= 2 {
                2int
            } else {
                ec
            };
            assert(tree_entries(tree2) == evicted_base(
                tree_entries(old(self).cert_tree),
                dqpre,
                kk2,
            ).insert(kk, digest@));
        }
        Some(root)
    }
}


/// A valid batch start: everything before `s` is below the nonce, and
/// `s` itself (if in range) is not.
pub open spec fn is_partition_point(q: Seq<QueuedMessage>, nonce: u64, s: int) -> bool {
    &&& 0 <= s <= q.len()
    &&& forall|i: int| 0 <= i < s ==> (#[trigger] q[i].nonce) < nonce
    &&& s < q.len() ==> q[s].nonce >= nonce
}

/// Where a batch for `nonce` ends when it starts at `s`.
pub open spec fn batch_end(q: Seq<QueuedMessage>, s: int) -> int {
    if s + MAX_RETURNED_MESSAGES as int <= q.len() {
        s + MAX_RETURNED_MESSAGES as int
    } else {
        q.len() as int
    }
}

impl WsState {
    /// The serialised witness for one stored key under the fixed label.
    pub fn get_cert_for_message(&self, key: &String) -> (r: Vec<u8>)
        ensures
            r@ == single_witness_of(self.cert_tree, key@, label_seq()),
    {
        let label = label_websocket();
        single_witness(&self.cert_tree, key, &label)
    }

    /// The serialised witness for a stored key range under the fixed
    /// label. The range must be ordered: the tree refuses a lower
    /// bracket above the upper one.
    pub fn get_cert_for_range(&self, first: &String, last: &String) -> (r: Vec<u8>)
        requires
            crate::keys::lex_lt(first@, last@) || first@ == last@,
        ensures
            r@ == range_witness_of(self.cert_tree, first@, last@, label_seq()),
    {
        let label = label_websocket();
        range_witness(&self.cert_tree, first, last, &label)
    }

    /// A gateway's poll: returns up to the batch cap of queued messages
    /// whose nonce is at least `nonce`, together with the host
    /// certificate handed in and the range witness over the returned
    /// keys. An unknown gateway gets an empty queue and an empty batch.
    pub fn get_cert_messages(&mut self, gateway: String, nonce: u64, cert: Vec<u8>) -> (r:
        CertMessages)
        requires
            old(self).wf(),
        ensures
            final(self).wf(),
            final(self).next_client_id == old(self).next_client_id,
            final(self).next_message_nonce == old(self).next_message_nonce,
            final(self).client_caller_map@ == old(self).client_caller_map@,
            final(self).client_public_key_map@ == old(self).client_public_key_map@,
            final(self).client_gateway_map@ == old(self).client_gateway_map@,
            final(self).client_message_num_map@ == old(self).client_message_num_map@,
            final(self).client_incoming_num_map@ == old(self).client_incoming_num_map@,
            final(self).delete_queue == old(self).delete_queue,
            final(self).cert_tree == old(self).cert_tree,
            forall|j: int|
                0 <= j < old(self).gateway_queues@.len()
                    ==> #[trigger] final(self).gateway_queues@[j] == old(self).gateway_queues@[j],
            final(self).gateway_queues@.len() == old(self).gateway_queues@.len()
                || final(self).gateway_queues@.len() == old(self).gateway_queues@.len() + 1,
            exists|gi: int|
                0 <= gi < final(self).gateway_queues@.len() && #[trigger] gw_of(
                    final(self).gateway_queues@,
                    gi,
                ) == gateway@ && ({
                    let q = q_of(final(self).gateway_queues@, gi);
                    exists|s: int|
                        #[trigger] is_partition_point(q, nonce, s) && ({
                            let e = batch_end(q, s);
                            &&& r.messages@.len() == e - s
                            &&& (forall|m: int|
                                0 <= m < e - s ==> ((#[trigger] r.messages@[m]).client_id == q[s
                                    + m].msg.client_id && r.messages@[m].key@ == q[s + m].msg.key@
                                    && r.messages@[m].val@ == q[s + m].msg.val@))
                            &&& e > s ==> r.cert@ == cert@ && r.tree@ == range_witness_of(
                                final(self).cert_tree,
                                q[s].msg.key@,
                                q[e - 1].msg.key@,
                                label_seq(),
                            )
                            &&& e == s ==> r.cert@.len() == 0 && r.tree@.len() == 0
                        })
                }),
    {
        let ghost queues0 = self.gateway_queues@;
        let gi = match self.find_gateway(&gateway) {
            Some(gi) => gi,
            None => {
                let gi = self.gateway_queues.len();
                let messages: VecDeque<QueuedMessage> = VecDeque::new();
                self.gateway_queues.push(GatewayQueue { gateway: gateway.clone(), messages });
                proof {
                    let queues2 = self.gateway_queues@;
                    let dq = self.delete_queue@;
                    assert(queues2 =~= queues0.push(queues2.last()));
                    assert(q_of(queues2, gi as int).len() == 0);
                    assert forall|i: int, j: int| 0 <= i < j < queues2.len() implies #[trigger] gw_of(
                        queues2,
                        i,
                    ) != #[trigger] gw_of(queues2, j) by {
                        if j == gi as int {
                            assert(gw_of(queues0, i) != gateway@);
                        } else {
                            assert(gw_of(queues0, i) != gw_of(queues0, j));
                        }
                    }
                    assert forall|j: int| 0 <= j < queues2.len() implies queue_wf(
                        #[trigger] q_of(queues2, j),
                        gw_of(queues2, j),
                        self.next_message_nonce,
                    ) by {
                        if j != gi as int {
                            assert(queue_wf(
                                q_of(queues0, j),
                                gw_of(queues0, j),
                                self.next_message_nonce,
                            ));
                        }
                    }
                    assert forall|k: int| 0 <= k < dq.len() implies exists|j: int|
                        0 <= j < queues2.len() && #[trigger] dq[k].gateway@ == gw_of(queues2, j) by {
                        let j = choose|j: int|
                            0 <= j < queues0.len() && #[trigger] dq[k].gateway@ == gw_of(queues0, j);
                        assert(0 <= j < queues2.len() && dq[k].gateway@ == gw_of(queues2, j));
                    }
                    assert forall|j: int| 0 <= j < queues2.len() implies dq_proj(
                        dq,
                        gw_of(queues2, j),
                    ) == q_keys(#[trigger] q_of(queues2, j)) by {
                        if j == gi as int {
                            assert forall|k: int| 0 <= k < dq.len() implies (#[trigger] dq[k].gateway@)
                                != gateway@ by {
                                let jj = choose|jj: int|
                                    0 <= jj < queues0.len() && #[trigger] dq[k].gateway@ == gw_of(
                                        queues0,
                                        jj,
                                    );
                                assert(gw_of(queues0, jj) != gateway@);
                            }
                            lemma_dq_proj_absent(dq, gateway@);
                            assert(q_keys(q_of(queues2, j)) =~= Seq::<Seq<char>>::empty());
                        } else {
                            assert(dq_proj(dq, gw_of(queues0, j)) == q_keys(q_of(queues0, j)));
                        }
                    }
                    assert forall|j: int, i: int|
                        0 <= j < queues2.len() && 0 <= i < q_of(queues2, j).len() implies tree_entries(
                        self.cert_tree,
                    ).contains_key((#[trigger] q_of(queues2, j)[i]).msg.key@) && tree_entries(
                        self.cert_tree,
                    )[q_of(queues2, j)[i].msg.key@] == sha256_of(q_of(queues2, j)[i].msg.val@) by {
                        assert(j != gi as int);
                        assert(q_of(queues2, j)[i] == q_of(queues0, j)[i]);
                    }
                }
                gi
            },
        };
        let q_len = self.gateway_queues[gi].messages.len();
        let mut start: usize = 0;
        while start < q_len && self.gateway_queues[gi].messages[start].nonce < nonce
            invariant
                0 <= gi < self.gateway_queues@.len(),
                q_len == q_of(self.gateway_queues@, gi as int).len(),
                start <= q_len,
                forall|i: int|
                    0 <= i < start ==> (#[trigger] q_of(self.gateway_queues@, gi as int)[i].nonce)
                        < nonce,
            decreases q_len - start,
        {
            start += 1;
        }
        let mut end: usize = start;
        while end < q_len && end - start < MAX_RETURNED_MESSAGES
            invariant
                start <= end <= q_len,
                end - start <= MAX_RETURNED_MESSAGES,
            decreases q_len - end,
        {
            end += 1;
        }
        proof {
            assert(is_partition_point(q_of(self.gateway_queues@, gi as int), nonce, start as int));
            assert(end as int == batch_end(q_of(self.gateway_queues@, gi as int), start as int));
        }
        let mut messages: Vec<EncodedMessage> = Vec::new();
        let mut m = start;
        while m < end
            invariant
                0 <= gi < self.gateway_queues@.len(),
                start <= m <= end,
                end <= q_of(self.gateway_queues@, gi as int).len(),
                messages@.len() == m - start,
                forall|i: int|
                    0 <= i < m - start ==> ((#[trigger] messages@[i]).client_id == q_of(
                        self.gateway_queues@,
                        gi as int,
                    )[start + i].msg.client_id && messages@[i].key@ == q_of(
                        self.gateway_queues@,
                        gi as int,
                    )[start + i].msg.key@ && messages@[i].val@ == q_of(
                        self.gateway_queues@,
                        gi as int,
                    )[start + i].msg.val@),
            decreases end - m,
        {
            let client_id = self.gateway_queues[gi].messages[m].msg.client_id;
            let key = self.gateway_queues[gi].messages[m].msg.key.clone();
            let mut val: Vec<u8> = Vec::new();
            crate::cbor::push_all(&mut val, &self.gateway_queues[gi].messages[m].msg.val);
            messages.push(EncodedMessage { client_id, key, val });
            m += 1;
        }
        if end > start {
            let first_key = self.gateway_queues[gi].messages[start].msg.key.clone();
            let last_key = self.gateway_queues[gi].messages[end - 1].msg.key.clone();
            proof {
                let q = q_of(self.gateway_queues@, gi as int);
                let g = gw_of(self.gateway_queues@, gi as int);
                assert(queue_wf(q, g, self.next_message_nonce));
                assert(first_key@ == key_seq(g, q[start as int].nonce));
                assert(last_key@ == key_seq(g, q[end - 1].nonce));
                if start < end - 1 {
                    assert(q[start as int].nonce < q[end - 1].nonce);
                    crate::keys::lemma_key_order(g, q[start as int].nonce, q[end - 1].nonce);
                }
            }
            let label = label_websocket();
            let tree = range_witness(&self.cert_tree, &first_key, &last_key, &label);
            CertMessages { messages, cert, tree }
        } else {
            let empty_cert: Vec<u8> = Vec::new();
            let empty_tree: Vec<u8> = Vec::new();
            CertMessages { messages, cert: empty_cert, tree: empty_tree }
        }
    }
}

} // verus!
