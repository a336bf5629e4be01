//! The gateway relay's decisions: reading the nonce cursor out of a
//! message key, turning a polled batch into client-addressed frames,
//! and the server's session bookkeeping. The sockets, timers and host
//! calls around these live outside the library.

use crate::cbor::{
    dec_first_frame, dec_first_message, decode_first_frame, decode_first_message, enc_cert_message,
    encode_cert_message_parts, eq_bytes,
};
use crate::crypto::{ed25519_valid, ed25519_verify};
use crate::types::FirstMessage;
use crate::keys::{decimal_digits, digit_char, key_seq, pad20, pow10};
use crate::types::CertMessages;
use std::collections::HashMap;
use vstd::prelude::*;
use vstd::string::StrSliceExecFns;

verus! {

broadcast use vstd::std_specs::hash::group_hash_axioms;

/// The numeric value of a decimal digit character; meaningful only for
/// '0' through '9'.
pub open spec fn digit_of(c: char) -> int {
    c as int - 48
}

/// Whether a character is a decimal digit.
pub open spec fn is_digit(c: char) -> bool {
    '0' as int <= c as int <= '9' as int
}

/// The number a digit string spells, most significant digit first.
pub open spec fn digits_val(s: Seq<char>) -> int
    decreases s.len(),
{
    if s.len() == 0 {
        0
    } else {
        digits_val(s.drop_last()) * 10 + digit_of(s.last())
    }
}

proof fn lemma_digit_of_char(d: int)
    requires
        0 <= d < 10,
    ensures
        digit_of(digit_char(d)) == d,
        is_digit(digit_char(d)),
{
}

/// A decimal writing ends with the number's last digit.
proof fn lemma_decimal_digits_snoc(n: int, e: int)
    requires
        e >= 1,
        n >= 0,
    ensures
        decimal_digits(n, e) == decimal_digits(n / 10, e - 1).push(digit_char(n % 10)),
    decreases e,
{
    crate::keys::lemma_pow10_pos(e - 1);
    if e == 1 {
        assert(pow10(0) == 1);
        vstd::arithmetic::div_mod::lemma_div_basics(n);
        assert(n / pow10(0) == n);
        let lhs = decimal_digits(n, 1);
        assert(lhs == seq![digit_char((n / pow10(0)) % 10)] + decimal_digits(n % pow10(0), 0));
        assert(decimal_digits(n % pow10(0), 0) =~= Seq::<char>::empty());
        assert(lhs =~= seq![digit_char(n % 10)]);
        assert(decimal_digits(n / 10, 0) =~= Seq::<char>::empty());
        assert(decimal_digits(n / 10, 0).push(digit_char(n % 10)) =~= seq![digit_char(n % 10)]);
        assert(lhs =~= decimal_digits(n / 10, 0).push(digit_char(n % 10)));
    } else {
        let p = pow10(e - 1);
        let q = pow10(e - 2);
        crate::keys::lemma_pow10_pos(e - 2);
        assert(p == 10 * q);
        let m = n % p;
        vstd::arithmetic::div_mod::lemma_mod_bound(n, p);
        lemma_decimal_digits_snoc(m, e - 1);
        assert(m % 10 == n % 10) by {
            vstd::arithmetic::div_mod::lemma_mod_mod(n, 10, q);
            assert(10 * q == p);
        };
        assert(m / 10 == (n / 10) % q) by {
            vstd::arithmetic::div_mod::lemma_mod_breakdown(n, 10, q);
            assert(n % (10 * q) == 10 * ((n / 10) % q) + n % 10);
            assert(m == 10 * ((n / 10) % q) + n % 10);
            vstd::arithmetic::div_mod::lemma_mod_bound(n, 10);
            assert((10 * ((n / 10) % q) + n % 10) / 10 == (n / 10) % q) by (nonlinear_arith)
                requires
                    0 <= n % 10 < 10,
                    0 <= (n / 10) % q,
            ;
        };
        assert(n / p == (n / 10) / q) by {
            vstd::arithmetic::div_mod::lemma_div_denominator(n, 10, q);
        };
        assert(decimal_digits(n, e) == seq![digit_char((n / p) % 10)] + decimal_digits(m, e - 1));
        assert(decimal_digits(n / 10, e - 1) == seq![digit_char(((n / 10) / q) % 10)]
            + decimal_digits((n / 10) % q, e - 2));
        assert(decimal_digits(n, e) =~= decimal_digits(n / 10, e - 1).push(digit_char(n % 10)));
    }
}

/// Reading a number's decimal writing gives the number back.
pub proof fn lemma_digits_val_of_decimal(n: int, e: int)
    requires
        n >= 0,
        e >= 0,
        n < pow10(e),
    ensures
        digits_val(decimal_digits(n, e)) == n,
    decreases e,
{
    crate::keys::lemma_pow10_pos(e);
    if e == 0 {
        assert(decimal_digits(n, 0) =~= Seq::<char>::empty());
    } else {
        lemma_decimal_digits_snoc(n, e);
        let s = decimal_digits(n, e);
        let s0 = decimal_digits(n / 10, e - 1);
        assert(s.drop_last() =~= s0);
        assert(s.last() == digit_char(n % 10));
        vstd::arithmetic::div_mod::lemma_mod_bound(n, 10);
        lemma_digit_of_char(n % 10);
        assert(n / 10 < pow10(e - 1)) by {
            crate::keys::lemma_pow10_pos(e - 1);
            vstd::arithmetic::div_mod::lemma_multiply_divide_lt(n, 10, pow10(e - 1));
        };
        lemma_digits_val_of_decimal(n / 10, e - 1);
        assert(digits_val(s) == (n / 10) * 10 + n % 10);
        assert((n / 10) * 10 + n % 10 == n) by {
            vstd::arithmetic::div_mod::lemma_fundamental_div_mod(n, 10);
        };
    }
}

/// Every character of a number's decimal writing is a digit.
proof fn lemma_decimal_digits_are_digits(n: int, e: int, i: int)
    requires
        n >= 0,
        0 <= i < e,
    ensures
        decimal_digits(n, e).len() == e,
        is_digit(decimal_digits(n, e)[i]),
    decreases e,
{
    crate::keys::lemma_pow10_pos(e - 1);
    let p = pow10(e - 1);
    vstd::arithmetic::div_mod::lemma_mod_bound((n / p), 10);
    vstd::arithmetic::div_mod::lemma_div_pos_is_pos(n, p);
    vstd::arithmetic::div_mod::lemma_mod_bound(n, p);
    if i == 0 {
        lemma_digit_of_char((n / p) % 10);
        if e > 1 {
            lemma_decimal_digits_are_digits(n % p, e - 1, 0);
        } else {
            crate::keys::lemma_pow10_pos(0);
            assert(decimal_digits(n % p, 0).len() == 0);
        }
    } else {
        lemma_decimal_digits_are_digits(n % p, e - 1, i - 1);
    }
}

/// Reads the nonce out of a message key: the 20-digit decimal after
/// the key's final underscore. Returns `None` when the key does not
/// end in an underscore followed by 20 digits spelling a value that
/// fits in 64 bits. On every key the plane builds, this returns the
/// nonce the key was built from.
pub fn parse_key_nonce(key: &String) -> (r: Option<u64>)
    ensures
        forall|gw: Seq<char>, n: u64| key@ == key_seq(gw, n) ==> r == Some(n),
{
    let k = key.as_str();
    let len = k.unicode_len();
    if len < 21 {
        proof {
            assert forall|gw: Seq<char>, n: u64| key@ == key_seq(gw, n) implies false by {
                crate::keys::lemma_pad20_len(n);
            }
        }
        return None;
    }
    if k.get_char(len - 21) != '_' {
        proof {
            assert forall|gw: Seq<char>, n: u64| key@ == key_seq(gw, n) implies false by {
                crate::keys::lemma_pad20_len(n);
                assert(key@[len - 21] == '_');
            }
        }
        return None;
    }
    let mut v: u64 = 0;
    let mut i: usize = 0;
    let ghost suffix = key@.subrange(len - 20, len as int);
    while i < 20
        invariant
            i <= 20,
            k@ == key@,
            len == key@.len(),
            len >= 21,
            suffix == key@.subrange(len - 20, len as int),
            forall|j: int| 0 <= j < i ==> is_digit(#[trigger] suffix[j]),
            v as int == digits_val(suffix.subrange(0, i as int)),
        decreases 20 - i,
    {
        let c = k.get_char(len - 20 + i);
        proof {
            assert(c == suffix[i as int]);
        }
        if c < '0' || c > '9' {
            proof {
                assert forall|gw: Seq<char>, n: u64| key@ == key_seq(gw, n) implies false by {
                    crate::keys::lemma_pad20_len(n);
                    assert(suffix =~= pad20(n));
                    crate::keys::lemma_pow10_pos(20);
                    lemma_decimal_digits_are_digits(n as int, 20, i as int);
                }
            }
            return None;
        }
        let d = (c as u8) - 48;
        if v > (u64::MAX - (d as u64)) / 10 {
            proof {
                assert forall|gw: Seq<char>, n: u64| key@ == key_seq(gw, n) implies false by {
                    crate::keys::lemma_pad20_len(n);
                    assert(suffix =~= pad20(n));
                    lemma_suffix_value_bounded(n, i as int);
                    assert(digits_val(suffix.subrange(0, i as int + 1)) <= n);
                    assert(digits_val(suffix.subrange(0, i as int + 1)) == digits_val(
                        suffix.subrange(0, i as int),
                    ) * 10 + digit_of(suffix[i as int])) by {
                        assert(suffix.subrange(0, i as int + 1).drop_last() =~= suffix.subrange(
                            0,
                            i as int,
                        ));
                    };
                }
            }
            return None;
        }
        proof {
            assert(suffix.subrange(0, i as int + 1).drop_last() =~= suffix.subrange(0, i as int));
            assert(digits_val(suffix.subrange(0, i as int + 1)) == digits_val(
                suffix.subrange(0, i as int),
            ) * 10 + digit_of(suffix[i as int]));
        }
        v = v * 10 + (d as u64);
        i += 1;
    }
    proof {
        assert(suffix.subrange(0, 20) =~= suffix);
        assert forall|gw: Seq<char>, n: u64| key@ == key_seq(gw, n) implies Some(v) == Some::<u64>(
            n,
        ) by {
            crate::keys::lemma_pad20_len(n);
            assert(suffix =~= pad20(n));
            crate::keys::lemma_pow10_pos(20);
            assert(n < pow10(20)) by {
                reveal_with_fuel(pow10, 21);
            };
            lemma_digits_val_of_decimal(n as int, 20);
        }
    }
    Some(v)
}

/// The value of a prefix of a number's decimal writing never exceeds
/// the number.
proof fn lemma_suffix_value_bounded(n: u64, i: int)
    requires
        0 <= i < 20,
    ensures
        digits_val(pad20(n).subrange(0, i + 1)) <= n,
{
    assert(n < pow10(20)) by {
        reveal_with_fuel(pow10, 21);
    };
    lemma_prefix_value(n as int, 20, i + 1);
    crate::keys::lemma_pow10_pos(19 - i);
    vstd::arithmetic::div_mod::lemma_div_nonincreasing(n as int, pow10(19 - i));
}

/// The value of the first `i` digits of an `e`-digit writing is the
/// number shifted down by `e - i` digits.
proof fn lemma_prefix_value(n: int, e: int, i: int)
    requires
        0 <= i <= e,
        0 <= n < pow10(e),
    ensures
        digits_val(decimal_digits(n, e).subrange(0, i)) == n / pow10(e - i),
    decreases e - i,
{
    crate::keys::lemma_pow10_pos(e - i);
    if i == e {
        assert(decimal_digits(n, e).subrange(0, e) =~= decimal_digits(n, e)) by {
            crate::keys::lemma_decimal_digits_len(n, e);
        };
        lemma_digits_val_of_decimal(n, e);
        assert(n / pow10(0) == n);
    } else {
        lemma_decimal_digits_snoc(n, e);
        let s = decimal_digits(n, e);
        let s0 = decimal_digits(n / 10, e - 1);
        assert(s.drop_last() =~= s0);
        assert(n / 10 < pow10(e - 1)) by {
            crate::keys::lemma_pow10_pos(e - 1);
            vstd::arithmetic::div_mod::lemma_div_pos_is_pos(n, 10);
            vstd::arithmetic::div_mod::lemma_multiply_divide_lt(n, 10, pow10(e - 1));
        };
        vstd::arithmetic::div_mod::lemma_div_pos_is_pos(n, 10);
        lemma_prefix_value(n / 10, e - 1, i);
        assert(s.subrange(0, i) =~= s0.subrange(0, i)) by {
            crate::keys::lemma_decimal_digits_len(n, e);
            crate::keys::lemma_decimal_digits_len(n / 10, e - 1);
        };
        assert((n / 10) / pow10(e - 1 - i) == n / pow10(e - i)) by {
            crate::keys::lemma_pow10_pos(e - 1 - i);
            vstd::arithmetic::div_mod::lemma_div_denominator(n, 10, pow10(e - 1 - i));
            assert(10 * pow10(e - 1 - i) == pow10(e - i));
        };
    }
}


/// One frame a poller hands to a client: the addressee and the bytes
/// to send.
pub struct OutFrame {
    pub client_id: u64,
    pub frame: Vec<u8>,
}

/// Turns one polled batch into client-addressed frames and the nonce
/// cursor for the next poll. Frames keep the batch's order; each holds
/// the message's key and bytes with the batch's shared certificate and
/// witness; the new cursor is one past the last message's key nonce,
/// so a later poll never sees these messages again.
#[verifier::rlimit(50)]
pub fn poll_step(batch: &CertMessages, nonce: u64) -> (r: (Vec<OutFrame>, u64))
    requires
        forall|i: int|
            0 <= i < batch.messages@.len() ==> (#[trigger] batch.messages@[i].key).is_ascii(),
    ensures
        r.0@.len() == batch.messages@.len(),
        forall|i: int|
            0 <= i < batch.messages@.len() ==> ((#[trigger] r.0@[i].client_id)
                == batch.messages@[i].client_id && r.0@[i].frame@ == enc_cert_message(
                batch.messages@[i].key@.map_values(|c: char| c as u8),
                batch.messages@[i].val@,
                batch.cert@,
                batch.tree@,
            )),
        batch.messages@.len() == 0 ==> r.1 == nonce,
        batch.messages@.len() > 0 ==> (forall|gw: Seq<char>, n: u64|
            batch.messages@.last().key@ == key_seq(gw, n) && n < u64::MAX ==> r.1 == n + 1),
{
    let mut out: Vec<OutFrame> = Vec::new();
    let mut cursor = nonce;
    let mut i: usize = 0;
    while i < batch.messages.len()
        invariant
            i <= batch.messages@.len(),
            out@.len() == i,
            i == 0 ==> cursor == nonce,
            i > 0 ==> (forall|gw: Seq<char>, n: u64|
                batch.messages@[i - 1].key@ == key_seq(gw, n) && n < u64::MAX ==> cursor == n + 1),
            forall|j: int|
                0 <= j < i ==> ((#[trigger] out@[j].client_id) == batch.messages@[j].client_id
                    && out@[j].frame@ == enc_cert_message(
                    batch.messages@[j].key@.map_values(|c: char| c as u8),
                    batch.messages@[j].val@,
                    batch.cert@,
                    batch.tree@,
                )),
            forall|j: int|
                0 <= j < batch.messages@.len() ==> (#[trigger] batch.messages@[j].key).is_ascii(),
        decreases batch.messages@.len() - i,
    {
        let m = &batch.messages[i];
        let ks = m.key.as_str();
        let key_bytes = ks.as_bytes_vec();
        proof {
            vstd::string::is_ascii_spec_bytes(ks);
            assert(key_bytes@ =~= m.key@.map_values(|c: char| c as u8));
        }
        let frame = encode_cert_message_parts(&key_bytes, &m.val, &batch.cert, &batch.tree);
        out.push(OutFrame { client_id: m.client_id, frame });
        match parse_key_nonce(&m.key) {
            Some(n) => {
                if n < u64::MAX {
                    cursor = n + 1;
                } else {
                    cursor = n;
                }
            },
            None => {},
        }
        proof {
            assert forall|gw: Seq<char>, n: u64|
                batch.messages@[i as int].key@ == key_seq(gw, n) && n < u64::MAX implies cursor == n
                + 1 by {}
        }
        i += 1;
    }
    (out, cursor)
}

/// A session's first inbound frame, decided: on a connection that is
/// not yet attached, the frame must be `{content, sig}` whose content
/// is a first message and whose signature verifies under the client's
/// fetched key; then the session attaches to that client and canister
/// and the open call goes out. Anything else — including any frame on
/// an already attached session, which is forwarded raw instead — is no
/// handshake.
pub fn handshake_step(connected: bool, frame: &Vec<u8>, pk: &Vec<u8>) -> (r: Option<FirstMessage>)
    ensures
        connected ==> r is None,
        !connected ==> ((r is Some) <==> (dec_first_frame(frame@) is Some && dec_first_message(
            dec_first_frame(frame@)->Some_0.0,
        ) is Some && ed25519_valid(
            pk@,
            dec_first_frame(frame@)->Some_0.0,
            dec_first_frame(frame@)->Some_0.1,
        ))),
        r is Some ==> ({
            let content = dec_first_frame(frame@)->Some_0.0;
            r->Some_0.client_id == dec_first_message(content)->Some_0.0
                && r->Some_0.canister_id@ == dec_first_message(content)->Some_0.1
        }),
{
    if connected {
        return None;
    }
    let (content, sig) = match decode_first_frame(frame) {
        None => {
            return None;
        },
        Some(t) => t,
    };
    let first = match decode_first_message(&content) {
        None => {
            return None;
        },
        Some(f) => f,
    };
    if ed25519_verify(pk, &content, &sig) {
        Some(first)
    } else {
        None
    }
}

/// One poller's bookkeeping: which canister it polls, and which
/// session serves each of that canister's clients. The polling task,
/// its agent and the socket handles live outside the library; sessions
/// are named by their ids.
pub struct CanisterPoller {
    /// Canister identity in its textual form, as UTF-8 bytes.
    pub canister_id: Vec<u8>,
    pub client_sessions: HashMap<u64, u64>,
}

impl CanisterPoller {
    /// Routes one more of the canister's clients over this poller.
    pub fn add_session(&mut self, canister_client_id: u64, session: u64)
        ensures
            final(self).canister_id == old(self).canister_id,
            final(self).client_sessions@ == old(self).client_sessions@.insert(
                canister_client_id,
                session,
            ),
    {
        self.client_sessions.insert(canister_client_id, session);
    }

    /// The session serving a client, if it is still mapped.
    pub fn session_for(&self, client_id: u64) -> (r: Option<u64>)
        ensures
            match r {
                Some(sid) => self.client_sessions@.contains_key(client_id) && sid
                    == self.client_sessions@[client_id],
                None => !self.client_sessions@.contains_key(client_id),
            },
    {
        match self.client_sessions.get(&client_id) {
            Some(sid) => Some(*sid),
            None => None,
        }
    }
}

/// The identity a session must close on the canister's side.
pub struct CloseArgs {
    pub client_id: u64,
    /// Canister identity in its textual form, as UTF-8 bytes.
    pub canister_id: Vec<u8>,
}

/// The gateway server's bookkeeping: session ids and what to close
/// when a session drops.
pub struct GatewayServer {
    pub next_session_id: u64,
    pub close_args: HashMap<u64, CloseArgs>,
    pub connected_canisters: Vec<CanisterPoller>,
}

impl GatewayServer {
    /// Each connected canister has exactly one poller.
    pub open spec fn wf(self) -> bool {
        forall|i: int, j: int|
            0 <= i < j < self.connected_canisters@.len()
                ==> (#[trigger] self.connected_canisters@[i].canister_id@)
                != (#[trigger] self.connected_canisters@[j].canister_id@)
    }

    /// A fresh server: no sessions, no pollers yet.
    pub fn new() -> (s: GatewayServer)
        ensures
            s.wf(),
            s.next_session_id == 0,
            s.close_args@ == Map::<u64, CloseArgs>::empty(),
            s.connected_canisters@.len() == 0,
    {
        GatewayServer {
            next_session_id: 0,
            close_args: HashMap::new(),
            connected_canisters: Vec::new(),
        }
    }

    /// Accepts a connection: hands out the next session id.
    pub fn accept_session(&mut self) -> (r: u64)
        requires
            old(self).next_session_id < u64::MAX,
        ensures
            r == old(self).next_session_id,
            final(self).next_session_id == r + 1,
            final(self).close_args@ == old(self).close_args@,
            final(self).connected_canisters == old(self).connected_canisters,
            old(self).wf() ==> final(self).wf(),
    {
        let r = self.next_session_id;
        self.next_session_id = r + 1;
        r
    }

    /// The poller for a canister, by its textual identity.
    fn find_canister(&self, canister_id: &Vec<u8>) -> (r: Option<usize>)
        ensures
            match r {
                Some(ci) => ci < self.connected_canisters@.len()
                    && self.connected_canisters@[ci as int].canister_id@ == canister_id@,
                None => forall|ci: int|
                    0 <= ci < self.connected_canisters@.len()
                        ==> (#[trigger] self.connected_canisters@[ci].canister_id@)
                        != canister_id@,
            },
    {
        let mut ci: usize = 0;
        while ci < self.connected_canisters.len()
            invariant
                ci <= self.connected_canisters@.len(),
                forall|j: int|
                    0 <= j < ci ==> (#[trigger] self.connected_canisters@[j].canister_id@)
                        != canister_id@,
            decreases self.connected_canisters@.len() - ci,
        {
            if eq_bytes(&self.connected_canisters[ci].canister_id, canister_id) {
                return Some(ci);
            }
            ci += 1;
        }
        None
    }

    /// Records which client and canister a session speaks for, and
    /// routes the client over the canister's poller — creating the
    /// poller when the canister is new, in which case the embedding
    /// must start its polling task and the result says so.
    pub fn connect_canister(&mut self, session_id: u64, client_id: u64, canister_id: Vec<u8>) -> (
        started: bool)
        requires
            old(self).wf(),
        ensures
            final(self).wf(),
            final(self).next_session_id == old(self).next_session_id,
            final(self).close_args@.contains_key(session_id),
            final(self).close_args@[session_id].client_id == client_id,
            final(self).close_args@[session_id].canister_id == canister_id,
            forall|s: u64|
                s != session_id ==> (old(self).close_args@.contains_key(s) == final(self).close_args@.contains_key(s) && (old(self).close_args@.contains_key(s)
                    ==> #[trigger] final(self).close_args@[s] == old(self).close_args@[s])),
            started == (forall|ci: int|
                0 <= ci < old(self).connected_canisters@.len()
                    ==> (#[trigger] old(self).connected_canisters@[ci].canister_id@)
                    != canister_id@),
            started ==> final(self).connected_canisters@.len() == old(
                self,
            ).connected_canisters@.len() + 1 && (forall|j: int|
                0 <= j < old(self).connected_canisters@.len() ==> #[trigger] final(self).connected_canisters@[j] == old(self).connected_canisters@[j])
                && final(self).connected_canisters@.last().canister_id@ == canister_id@ && final(self).connected_canisters@.last().client_sessions@ == Map::<u64, u64>::empty().insert(
                client_id,
                session_id,
            ),
            !started ==> final(self).connected_canisters@.len() == old(
                self,
            ).connected_canisters@.len() && (exists|ci: int|
                0 <= ci < old(self).connected_canisters@.len() && (#[trigger] old(self).connected_canisters@[ci].canister_id@) == canister_id@ && final(self).connected_canisters@[ci].canister_id == old(self).connected_canisters@[ci].canister_id
                    && final(self).connected_canisters@[ci].client_sessions@ == old(self).connected_canisters@[ci].client_sessions@.insert(client_id, session_id) && (
                forall|j: int|
                    0 <= j < old(self).connected_canisters@.len() && j != ci
                        ==> #[trigger] final(self).connected_canisters@[j] == old(self).connected_canisters@[j])),
    {
        let canister_key = canister_id.clone();
        self.close_args.insert(session_id, CloseArgs { client_id, canister_id });
        match self.find_canister(&canister_key) {
            Some(ci) => {
                let mut poller = self.connected_canisters.remove(ci);
                poller.add_session(client_id, session_id);
                self.connected_canisters.insert(ci, poller);
                proof {
                    assert(self.connected_canisters@ =~= old(self).connected_canisters@.update(
                        ci as int,
                        self.connected_canisters@[ci as int],
                    ));
                }
                false
            },
            None => {
                let mut poller = CanisterPoller {
                    canister_id: canister_key,
                    client_sessions: HashMap::new(),
                };
                poller.add_session(client_id, session_id);
                self.connected_canisters.push(poller);
                proof {
                    assert forall|i: int, j: int|
                        0 <= i < j < self.connected_canisters@.len() implies (
                    #[trigger] self.connected_canisters@[i].canister_id@) != (
                    #[trigger] self.connected_canisters@[j].canister_id@) by {
                        if j == self.connected_canisters@.len() - 1 {
                            assert(old(self).connected_canisters@[i].canister_id@
                                != canister_key@);
                        } else {
                            assert(old(self).connected_canisters@[i].canister_id@ != old(
                                self,
                            ).connected_canisters@[j].canister_id@);
                        }
                    }
                }
                true
            },
        }
    }

    /// Takes a dropped session's close target out of the table.
    pub fn disconnected(&mut self, session_id: u64) -> (r: Option<CloseArgs>)
        ensures
            final(self).next_session_id == old(self).next_session_id,
            final(self).close_args@ == old(self).close_args@.remove(session_id),
            final(self).connected_canisters == old(self).connected_canisters,
            old(self).wf() ==> final(self).wf(),
            match r {
                Some(args) => old(self).close_args@.contains_key(session_id) && args == old(self).close_args@[session_id],
                None => !old(self).close_args@.contains_key(session_id),
            },
    {
        self.close_args.remove(&session_id)
    }
}

} // verus!
