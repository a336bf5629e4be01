//! The wire encoding: self-describing CBOR for the payload shapes the
//! message plane produces and accepts.
//!
//! Encoders write the canonical form: the self-describe tag, maps with
//! the fields in declaration order, and minimal-length integer heads.
//! Decoders accept the self-describe tag or its absence, any
//! definite-length integer head, and the fields in declaration order,
//! which is the order every encoder in this ecosystem emits. Text
//! items are handled as their raw payload bytes throughout: the
//! decoders do not check a text payload for UTF-8 well-formedness,
//! since no consumer in the plane decodes text further — a deliberate
//! leniency over deserializers that reject ill-formed text.

use crate::types::{AppMessage, ClientMessage, FirstMessage, WebsocketMessage};
use vstd::prelude::*;

verus! {

/// The CBOR self-describe tag, 55799, as its three-byte encoding.
pub open spec fn sd_tag() -> Seq<u8> {
    seq![0xd9u8, 0xd9u8, 0xf7u8]
}

/// Minimal-length head for a CBOR item: major type and argument.
pub open spec fn enc_head(major: int, v: int) -> Seq<u8> {
    if v < 24 {
        seq![(major * 32 + v) as u8]
    } else if v < 0x100 {
        seq![(major * 32 + 24) as u8, v as u8]
    } else if v < 0x10000 {
        seq![(major * 32 + 25) as u8, (v / 0x100) as u8, (v % 0x100) as u8]
    } else if v < 0x100000000 {
        seq![
            (major * 32 + 26) as u8,
            (v / 0x1000000) as u8,
            ((v / 0x10000) % 0x100) as u8,
            ((v / 0x100) % 0x100) as u8,
            (v % 0x100) as u8,
        ]
    } else {
        seq![
            (major * 32 + 27) as u8,
            (v / 0x100000000000000) as u8,
            ((v / 0x1000000000000) % 0x100) as u8,
            ((v / 0x10000000000) % 0x100) as u8,
            ((v / 0x100000000) % 0x100) as u8,
            ((v / 0x1000000) % 0x100) as u8,
            ((v / 0x10000) % 0x100) as u8,
            ((v / 0x100) % 0x100) as u8,
            (v % 0x100) as u8,
        ]
    }
}

/// An unsigned integer item.
pub open spec fn enc_uint(v: u64) -> Seq<u8> {
    enc_head(0, v as int)
}

/// A byte-string item.
pub open spec fn enc_bytes(b: Seq<u8>) -> Seq<u8> {
    enc_head(2, b.len() as int) + b
}

/// A text item, given its UTF-8 bytes.
pub open spec fn enc_text(t: Seq<u8>) -> Seq<u8> {
    enc_head(3, t.len() as int) + t
}

pub open spec fn name_client_id() -> Seq<u8> {
    seq![
        'c' as u8,
        'l' as u8,
        'i' as u8,
        'e' as u8,
        'n' as u8,
        't' as u8,
        '_' as u8,
        'i' as u8,
        'd' as u8,
    ]
}

pub open spec fn name_sequence_num() -> Seq<u8> {
    seq![
        's' as u8,
        'e' as u8,
        'q' as u8,
        'u' as u8,
        'e' as u8,
        'n' as u8,
        'c' as u8,
        'e' as u8,
        '_' as u8,
        'n' as u8,
        'u' as u8,
        'm' as u8,
    ]
}

pub open spec fn name_timestamp() -> Seq<u8> {
    seq![
        't' as u8,
        'i' as u8,
        'm' as u8,
        'e' as u8,
        's' as u8,
        't' as u8,
        'a' as u8,
        'm' as u8,
        'p' as u8,
    ]
}

pub open spec fn name_message() -> Seq<u8> {
    seq!['m' as u8, 'e' as u8, 's' as u8, 's' as u8, 'a' as u8, 'g' as u8, 'e' as u8]
}

pub open spec fn name_val() -> Seq<u8> {
    seq!['v' as u8, 'a' as u8, 'l' as u8]
}

pub open spec fn name_sig() -> Seq<u8> {
    seq!['s' as u8, 'i' as u8, 'g' as u8]
}

pub open spec fn name_canister_id() -> Seq<u8> {
    seq![
        'c' as u8,
        'a' as u8,
        'n' as u8,
        'i' as u8,
        's' as u8,
        't' as u8,
        'e' as u8,
        'r' as u8,
        '_' as u8,
        'i' as u8,
        'd' as u8,
    ]
}

pub open spec fn name_content() -> Seq<u8> {
    seq!['c' as u8, 'o' as u8, 'n' as u8, 't' as u8, 'e' as u8, 'n' as u8, 't' as u8]
}

pub open spec fn name_text() -> Seq<u8> {
    seq!['t' as u8, 'e' as u8, 'x' as u8, 't' as u8]
}

pub open spec fn name_key() -> Seq<u8> {
    seq!['k' as u8, 'e' as u8, 'y' as u8]
}

pub open spec fn name_cert() -> Seq<u8> {
    seq!['c' as u8, 'e' as u8, 'r' as u8, 't' as u8]
}

pub open spec fn name_tree() -> Seq<u8> {
    seq!['t' as u8, 'r' as u8, 'e' as u8, 'e' as u8]
}

/// The encoding of a `WebsocketMessage`.
pub open spec fn enc_websocket_message(
    client_id: u64,
    sequence_num: u64,
    timestamp: u64,
    message: Seq<u8>,
) -> Seq<u8> {
    sd_tag() + enc_head(5, 4) + enc_text(name_client_id()) + enc_uint(client_id) + enc_text(
        name_sequence_num(),
    ) + enc_uint(sequence_num) + enc_text(name_timestamp()) + enc_uint(timestamp) + enc_text(
        name_message(),
    ) + enc_bytes(message)
}

/// The encoding of a client envelope `{val, sig}`.
pub open spec fn enc_client_message(val: Seq<u8>, sig: Seq<u8>) -> Seq<u8> {
    sd_tag() + enc_head(5, 2) + enc_text(name_val()) + enc_bytes(val) + enc_text(name_sig())
        + enc_bytes(sig)
}

/// The encoding of the frame a client opens its socket with:
/// `{content, sig}` where `content` carries the first message's bytes.
pub open spec fn enc_first_frame(content: Seq<u8>, sig: Seq<u8>) -> Seq<u8> {
    sd_tag() + enc_head(5, 2) + enc_text(name_content()) + enc_bytes(content) + enc_text(name_sig())
        + enc_bytes(sig)
}

/// Decodes the frame a client opens its socket with.
pub open spec fn dec_first_frame(b: Seq<u8>) -> Option<(Seq<u8>, Seq<u8>)> {
    match p_head(b, p_start(b)) {
        Some((major, n, i1)) => if major == 5 && n == 2 {
            match p_field(b, i1, name_content()) {
                Some(i2) => match p_bytes(b, i2) {
                    Some((content, i3)) => match p_field(b, i3, name_sig()) {
                        Some(i4) => match p_bytes(b, i4) {
                            Some((sig, i5)) => if i5 == b.len() {
                                Some((content, sig))
                            } else {
                                None
                            },
                            None => None,
                        },
                        None => None,
                    },
                    None => None,
                },
                None => None,
            }
        } else {
            None
        },
        None => None,
    }
}

/// The encoding of the handshake's first message `{client_id, canister_id}`.
pub open spec fn enc_first_message(client_id: u64, canister_id: Seq<u8>) -> Seq<u8> {
    sd_tag() + enc_head(5, 2) + enc_text(name_client_id()) + enc_uint(client_id) + enc_text(
        name_canister_id(),
    ) + enc_text(canister_id)
}

/// The encoding of the demo application's message `{text}`.
pub open spec fn enc_app_message(text: Seq<u8>) -> Seq<u8> {
    sd_tag() + enc_head(5, 1) + enc_text(name_text()) + enc_text(text)
}

/// The encoding of a gateway-to-client frame `{key, val, cert, tree}`.
pub open spec fn enc_cert_message(
    key: Seq<u8>,
    val: Seq<u8>,
    cert: Seq<u8>,
    tree: Seq<u8>,
) -> Seq<u8> {
    sd_tag() + enc_head(5, 4) + enc_text(name_key()) + enc_text(key) + enc_text(name_val())
        + enc_bytes(val) + enc_text(name_cert()) + enc_bytes(cert) + enc_text(name_tree())
        + enc_bytes(tree)
}

/// Reads one head at `i`: major type, argument, next offset. Accepts
/// every definite-length argument form.
pub open spec fn p_head(b: Seq<u8>, i: int) -> Option<(int, u64, int)> {
    if !(0 <= i < b.len()) {
        None
    } else {
        let ib = b[i] as int;
        let major = ib / 32;
        let ai = ib % 32;
        if ai < 24 {
            Some((major, ai as u64, i + 1))
        } else if ai == 24 {
            if i + 2 <= b.len() {
                Some((major, b[i + 1] as u64, i + 2))
            } else {
                None
            }
        } else if ai == 25 {
            if i + 3 <= b.len() {
                Some((major, ((b[i + 1] as int) * 0x100 + (b[i + 2] as int)) as u64, i + 3))
            } else {
                None
            }
        } else if ai == 26 {
            if i + 5 <= b.len() {
                Some(
                    (
                        major,
                        ((b[i + 1] as int) * 0x1000000 + (b[i + 2] as int) * 0x10000 + (b[i
                            + 3] as int) * 0x100 + (b[i + 4] as int)) as u64,
                        i + 5,
                    ),
                )
            } else {
                None
            }
        } else if ai == 27 {
            if i + 9 <= b.len() {
                Some(
                    (
                        major,
                        ((b[i + 1] as int) * 0x100000000000000 + (b[i + 2] as int) * 0x1000000000000
                            + (b[i + 3] as int) * 0x10000000000 + (b[i + 4] as int) * 0x100000000 + (
                        b[i + 5] as int) * 0x1000000 + (b[i + 6] as int) * 0x10000 + (b[i
                            + 7] as int) * 0x100 + (b[i + 8] as int)) as u64,
                        i + 9,
                    ),
                )
            } else {
                None
            }
        } else {
            None
        }
    }
}

/// Reads an unsigned integer item at `i`.
pub open spec fn p_uint(b: Seq<u8>, i: int) -> Option<(u64, int)> {
    match p_head(b, i) {
        Some((major, v, j)) => if major == 0 {
            Some((v, j))
        } else {
            None
        },
        None => None,
    }
}

/// Reads a string item of the given major type at `i`, returning its
/// payload bytes.
pub open spec fn p_str(b: Seq<u8>, i: int, major: int) -> Option<(Seq<u8>, int)> {
    match p_head(b, i) {
        Some((m, n, j)) => if m == major && j + n <= b.len() {
            Some((b.subrange(j, j + n), j + n))
        } else {
            None
        },
        None => None,
    }
}

/// Reads a byte string at `i`.
pub open spec fn p_bytes(b: Seq<u8>, i: int) -> Option<(Seq<u8>, int)> {
    p_str(b, i, 2)
}

/// Reads a text string at `i`, as its UTF-8 bytes.
pub open spec fn p_text(b: Seq<u8>, i: int) -> Option<(Seq<u8>, int)> {
    p_str(b, i, 3)
}

/// Where decoding starts: after the self-describe tag when present.
pub open spec fn p_start(b: Seq<u8>) -> int {
    if b.len() >= 3 && b.subrange(0, 3) == sd_tag() {
        3
    } else {
        0
    }
}

/// Reads a text item that must spell the expected field name.
pub open spec fn p_field(b: Seq<u8>, i: int, name: Seq<u8>) -> Option<int> {
    match p_text(b, i) {
        Some((t, j)) => if t == name {
            Some(j)
        } else {
            None
        },
        None => None,
    }
}

/// Decodes a client envelope `{val, sig}`.
pub open spec fn dec_client_message(b: Seq<u8>) -> Option<(Seq<u8>, Seq<u8>)> {
    match p_head(b, p_start(b)) {
        Some((major, n, i1)) => if major == 5 && n == 2 {
            match p_field(b, i1, name_val()) {
                Some(i2) => match p_bytes(b, i2) {
                    Some((val, i3)) => match p_field(b, i3, name_sig()) {
                        Some(i4) => match p_bytes(b, i4) {
                            Some((sig, i5)) => if i5 == b.len() {
                                Some((val, sig))
                            } else {
                                None
                            },
                            None => None,
                        },
                        None => None,
                    },
                    None => None,
                },
                None => None,
            }
        } else {
            None
        },
        None => None,
    }
}

/// Decodes a `WebsocketMessage`.
pub open spec fn dec_websocket_message(b: Seq<u8>) -> Option<(u64, u64, u64, Seq<u8>)> {
    match p_head(b, p_start(b)) {
        Some((major, n, i1)) => if major == 5 && n == 4 {
            match p_field(b, i1, name_client_id()) {
                Some(i2) => match p_uint(b, i2) {
                    Some((cid, i3)) => match p_field(b, i3, name_sequence_num()) {
                        Some(i4) => match p_uint(b, i4) {
                            Some((sn, i5)) => match p_field(b, i5, name_timestamp()) {
                                Some(i6) => match p_uint(b, i6) {
                                    Some((ts, i7)) => match p_field(b, i7, name_message()) {
                                        Some(i8) => match p_bytes(b, i8) {
                                            Some((msg, i9)) => if i9 == b.len() {
                                                Some((cid, sn, ts, msg))
                                            } else {
                                                None
                                            },
                                            None => None,
                                        },
                                        None => None,
                                    },
                                    None => None,
                                },
                                None => None,
                            },
                            None => None,
                        },
                        None => None,
                    },
                    None => None,
                },
                None => None,
            }
        } else {
            None
        },
        None => None,
    }
}

/// Decodes the handshake's first message `{client_id, canister_id}`.
pub open spec fn dec_first_message(b: Seq<u8>) -> Option<(u64, Seq<u8>)> {
    match p_head(b, p_start(b)) {
        Some((major, n, i1)) => if major == 5 && n == 2 {
            match p_field(b, i1, name_client_id()) {
                Some(i2) => match p_uint(b, i2) {
                    Some((cid, i3)) => match p_field(b, i3, name_canister_id()) {
                        Some(i4) => match p_text(b, i4) {
                            Some((can, i5)) => if i5 == b.len() {
                                Some((cid, can))
                            } else {
                                None
                            },
                            None => None,
                        },
                        None => None,
                    },
                    None => None,
                },
                None => None,
            }
        } else {
            None
        },
        None => None,
    }
}

/// Decodes the demo application's message `{text}`.
pub open spec fn dec_app_message(b: Seq<u8>) -> Option<Seq<u8>> {
    match p_head(b, p_start(b)) {
        Some((major, n, i1)) => if major == 5 && n == 1 {
            match p_field(b, i1, name_text()) {
                Some(i2) => match p_text(b, i2) {
                    Some((t, i3)) => if i3 == b.len() {
                        Some(t)
                    } else {
                        None
                    },
                    None => None,
                },
                None => None,
            }
        } else {
            None
        },
        None => None,
    }
}

/// Appends the bytes of `data` to `out`.
pub fn push_all(out: &mut Vec<u8>, data: &Vec<u8>)
    ensures
        final(out)@ == old(out)@ + data@,
{
    let ghost orig = out@;
    let mut k: usize = 0;
    while k < data.len()
        invariant
            k <= data.len(),
            out@ =~= orig + data@.subrange(0, k as int),
        decreases data.len() - k,
    {
        out.push(data[k]);
        k += 1;
    }
    proof {
        assert(out@ =~= orig + data@);
    }
}

/// Appends the self-describe tag.
fn push_tag(out: &mut Vec<u8>)
    ensures
        final(out)@ == old(out)@ + sd_tag(),
{
    out.push(0xd9);
    out.push(0xd9);
    out.push(0xf7);
    proof {
        assert(out@ =~= old(out)@ + sd_tag());
    }
}

/// Appends the minimal-length head with the given major type and argument.
fn push_head(out: &mut Vec<u8>, major: u8, v: u64)
    requires
        major < 8,
    ensures
        final(out)@ == old(out)@ + enc_head(major as int, v as int),
{
    let m = major * 32;
    if v < 24 {
        out.push(m + v as u8);
    } else if v < 0x100 {
        out.push(m + 24);
        out.push(v as u8);
    } else if v < 0x10000 {
        out.push(m + 25);
        out.push((v / 0x100) as u8);
        out.push((v % 0x100) as u8);
    } else if v < 0x100000000 {
        out.push(m + 26);
        out.push((v / 0x1000000) as u8);
        out.push(((v / 0x10000) % 0x100) as u8);
        out.push(((v / 0x100) % 0x100) as u8);
        out.push((v % 0x100) as u8);
    } else {
        out.push(m + 27);
        out.push((v / 0x100000000000000) as u8);
        out.push(((v / 0x1000000000000) % 0x100) as u8);
        out.push(((v / 0x10000000000) % 0x100) as u8);
        out.push(((v / 0x100000000) % 0x100) as u8);
        out.push(((v / 0x1000000) % 0x100) as u8);
        out.push(((v / 0x10000) % 0x100) as u8);
        out.push(((v / 0x100) % 0x100) as u8);
        out.push((v % 0x100) as u8);
    }
    proof {
        assert(out@ =~= old(out)@ + enc_head(major as int, v as int));
    }
}

/// Appends an unsigned integer item.
fn push_uint(out: &mut Vec<u8>, v: u64)
    ensures
        final(out)@ == old(out)@ + enc_uint(v),
{
    push_head(out, 0, v);
}

/// Appends a byte-string item.
fn push_bytes(out: &mut Vec<u8>, data: &Vec<u8>)
    ensures
        final(out)@ == old(out)@ + enc_bytes(data@),
{
    push_head(out, 2, data.len() as u64);
    push_all(out, data);
    proof {
        assert(out@ =~= old(out)@ + enc_bytes(data@));
    }
}

/// Appends a text item given as UTF-8 bytes.
fn push_text(out: &mut Vec<u8>, data: &Vec<u8>)
    ensures
        final(out)@ == old(out)@ + enc_text(data@),
{
    push_head(out, 3, data.len() as u64);
    push_all(out, data);
    proof {
        assert(out@ =~= old(out)@ + enc_text(data@));
    }
}

/// The field names as runtime byte vectors.
fn bytes_client_id() -> (r: Vec<u8>)
    ensures
        r@ == name_client_id(),
{
    let r = vec![
        'c' as u8,
        'l' as u8,
        'i' as u8,
        'e' as u8,
        'n' as u8,
        't' as u8,
        '_' as u8,
        'i' as u8,
        'd' as u8,
    ];
    proof {
        assert(r@ =~= name_client_id());
    }
    r
}

fn bytes_sequence_num() -> (r: Vec<u8>)
    ensures
        r@ == name_sequence_num(),
{
    let r = vec![
        's' as u8,
        'e' as u8,
        'q' as u8,
        'u' as u8,
        'e' as u8,
        'n' as u8,
        'c' as u8,
        'e' as u8,
        '_' as u8,
        'n' as u8,
        'u' as u8,
        'm' as u8,
    ];
    proof {
        assert(r@ =~= name_sequence_num());
    }
    r
}

fn bytes_timestamp() -> (r: Vec<u8>)
    ensures
        r@ == name_timestamp(),
{
    let r = vec![
        't' as u8,
        'i' as u8,
        'm' as u8,
        'e' as u8,
        's' as u8,
        't' as u8,
        'a' as u8,
        'm' as u8,
        'p' as u8,
    ];
    proof {
        assert(r@ =~= name_timestamp());
    }
    r
}

fn bytes_message() -> (r: Vec<u8>)
    ensures
        r@ == name_message(),
{
    let r = vec!['m' as u8, 'e' as u8, 's' as u8, 's' as u8, 'a' as u8, 'g' as u8, 'e' as u8];
    proof {
        assert(r@ =~= name_message());
    }
    r
}

fn bytes_val() -> (r: Vec<u8>)
    ensures
        r@ == name_val(),
{
    let r = vec!['v' as u8, 'a' as u8, 'l' as u8];
    proof {
        assert(r@ =~= name_val());
    }
    r
}

fn bytes_sig() -> (r: Vec<u8>)
    ensures
        r@ == name_sig(),
{
    let r = vec!['s' as u8, 'i' as u8, 'g' as u8];
    proof {
        assert(r@ =~= name_sig());
    }
    r
}

fn bytes_canister_id() -> (r: Vec<u8>)
    ensures
        r@ == name_canister_id(),
{
    let r = vec![
        'c' as u8,
        'a' as u8,
        'n' as u8,
        'i' as u8,
        's' as u8,
        't' as u8,
        'e' as u8,
        'r' as u8,
        '_' as u8,
        'i' as u8,
        'd' as u8,
    ];
    proof {
        assert(r@ =~= name_canister_id());
    }
    r
}

fn bytes_text() -> (r: Vec<u8>)
    ensures
        r@ == name_text(),
{
    let r = vec!['t' as u8, 'e' as u8, 'x' as u8, 't' as u8];
    proof {
        assert(r@ =~= name_text());
    }
    r
}

fn bytes_key() -> (r: Vec<u8>)
    ensures
        r@ == name_key(),
{
    let r = vec!['k' as u8, 'e' as u8, 'y' as u8];
    proof {
        assert(r@ =~= name_key());
    }
    r
}

fn bytes_cert() -> (r: Vec<u8>)
    ensures
        r@ == name_cert(),
{
    let r = vec!['c' as u8, 'e' as u8, 'r' as u8, 't' as u8];
    proof {
        assert(r@ =~= name_cert());
    }
    r
}

fn bytes_tree() -> (r: Vec<u8>)
    ensures
        r@ == name_tree(),
{
    let r = vec!['t' as u8, 'r' as u8, 'e' as u8, 'e' as u8];
    proof {
        assert(r@ =~= name_tree());
    }
    r
}

/// Encodes a `WebsocketMessage` in its canonical form.
pub fn encode_websocket_message(m: &WebsocketMessage) -> (r: Vec<u8>)
    ensures
        r@ == enc_websocket_message(m.client_id, m.sequence_num, m.timestamp, m.message@),
{
    let mut out: Vec<u8> = Vec::new();
    push_tag(&mut out);
    push_head(&mut out, 5, 4);
    let n1 = bytes_client_id();
    push_text(&mut out, &n1);
    push_uint(&mut out, m.client_id);
    let n2 = bytes_sequence_num();
    push_text(&mut out, &n2);
    push_uint(&mut out, m.sequence_num);
    let n3 = bytes_timestamp();
    push_text(&mut out, &n3);
    push_uint(&mut out, m.timestamp);
    let n4 = bytes_message();
    push_text(&mut out, &n4);
    push_bytes(&mut out, &m.message);
    proof {
        assert(out@ =~= enc_websocket_message(
            m.client_id,
            m.sequence_num,
            m.timestamp,
            m.message@,
        ));
    }
    out
}

/// Encodes a client envelope in its canonical form.
pub fn encode_client_message(m: &ClientMessage) -> (r: Vec<u8>)
    ensures
        r@ == enc_client_message(m.val@, m.sig@),
{
    let mut out: Vec<u8> = Vec::new();
    push_tag(&mut out);
    push_head(&mut out, 5, 2);
    let n1 = bytes_val();
    push_text(&mut out, &n1);
    push_bytes(&mut out, &m.val);
    let n2 = bytes_sig();
    push_text(&mut out, &n2);
    push_bytes(&mut out, &m.sig);
    proof {
        assert(out@ =~= enc_client_message(m.val@, m.sig@));
    }
    out
}

/// Encodes the handshake's first message in its canonical form.
pub fn encode_first_message(m: &FirstMessage) -> (r: Vec<u8>)
    ensures
        r@ == enc_first_message(m.client_id, m.canister_id@),
{
    let mut out: Vec<u8> = Vec::new();
    push_tag(&mut out);
    push_head(&mut out, 5, 2);
    let n1 = bytes_client_id();
    push_text(&mut out, &n1);
    push_uint(&mut out, m.client_id);
    let n2 = bytes_canister_id();
    push_text(&mut out, &n2);
    push_text(&mut out, &m.canister_id);
    proof {
        assert(out@ =~= enc_first_message(m.client_id, m.canister_id@));
    }
    out
}

/// Encodes the demo application's message in its canonical form.
pub fn encode_app_message(m: &AppMessage) -> (r: Vec<u8>)
    ensures
        r@ == enc_app_message(m.text@),
{
    let mut out: Vec<u8> = Vec::new();
    push_tag(&mut out);
    push_head(&mut out, 5, 1);
    let n1 = bytes_text();
    push_text(&mut out, &n1);
    push_text(&mut out, &m.text);
    proof {
        assert(out@ =~= enc_app_message(m.text@));
    }
    out
}

/// Encodes a gateway-to-client frame in its canonical form; the key's
/// text is passed as its UTF-8 bytes.
pub fn encode_cert_message_parts(
    key: &Vec<u8>,
    val: &Vec<u8>,
    cert: &Vec<u8>,
    tree: &Vec<u8>,
) -> (r: Vec<u8>)
    ensures
        r@ == enc_cert_message(key@, val@, cert@, tree@),
{
    let mut out: Vec<u8> = Vec::new();
    push_tag(&mut out);
    push_head(&mut out, 5, 4);
    let n1 = bytes_key();
    push_text(&mut out, &n1);
    push_text(&mut out, key);
    let n2 = bytes_val();
    push_text(&mut out, &n2);
    push_bytes(&mut out, val);
    let n3 = bytes_cert();
    push_text(&mut out, &n3);
    push_bytes(&mut out, cert);
    let n4 = bytes_tree();
    push_text(&mut out, &n4);
    push_bytes(&mut out, tree);
    proof {
        assert(out@ =~= enc_cert_message(key@, val@, cert@, tree@));
    }
    out
}

/// Reads one head at `i`. Mirrors `p_head` exactly.
fn read_head(b: &Vec<u8>, i: usize) -> (r: Option<(u8, u64, usize)>)
    ensures
        match r {
            Some(t) => {
                &&& p_head(b@, i as int) == Some((t.0 as int, t.1, t.2 as int))
                &&& i < t.2 <= b.len()
                &&& t.0 < 8
            },
            None => p_head(b@, i as int) is None,
        },
{
    if i >= b.len() {
        return None;
    }
    let ib = b[i];
    let major = ib / 32;
    let ai = ib % 32;
    let rem = b.len() - i;
    if ai < 24 {
        Some((major, ai as u64, i + 1))
    } else if ai == 24 {
        if rem >= 2 {
            Some((major, b[i + 1] as u64, i + 2))
        } else {
            None
        }
    } else if ai == 25 {
        if rem >= 3 {
            Some((major, (b[i + 1] as u64) * 0x100 + (b[i + 2] as u64), i + 3))
        } else {
            None
        }
    } else if ai == 26 {
        if rem >= 5 {
            Some(
                (
                    major,
                    (b[i + 1] as u64) * 0x1000000 + (b[i + 2] as u64) * 0x10000 + (b[i
                        + 3] as u64) * 0x100 + (b[i + 4] as u64),
                    i + 5,
                ),
            )
        } else {
            None
        }
    } else if ai == 27 {
        if rem >= 9 {
            Some(
                (
                    major,
                    (b[i + 1] as u64) * 0x100000000000000 + (b[i + 2] as u64) * 0x1000000000000 + (
                    b[i + 3] as u64) * 0x10000000000 + (b[i + 4] as u64) * 0x100000000 + (b[i
                        + 5] as u64) * 0x1000000 + (b[i + 6] as u64) * 0x10000 + (b[i
                        + 7] as u64) * 0x100 + (b[i + 8] as u64),
                    i + 9,
                ),
            )
        } else {
            None
        }
    } else {
        None
    }
}

/// Reads a string item of the given major type at `i`, copying its
/// payload. Mirrors `p_str`.
fn read_str(b: &Vec<u8>, i: usize, major: u8) -> (r: Option<(Vec<u8>, usize)>)
    ensures
        match r {
            Some(t) => {
                &&& p_str(b@, i as int, major as int) == Some((t.0@, t.1 as int))
                &&& i < t.1 <= b.len()
            },
            None => p_str(b@, i as int, major as int) is None,
        },
{
    match read_head(b, i) {
        None => None,
        Some((m, n, j)) => {
            if m != major {
                return None;
            }
            let rem = (b.len() - j) as u64;
            if n > rem {
                return None;
            }
            let len = n as usize;
            let payload = vstd::slice::slice_to_vec(
                vstd::slice::slice_subrange(b.as_slice(), j, j + len),
            );
            Some((payload, j + len))
        },
    }
}

/// Reads an unsigned integer item at `i`. Mirrors `p_uint`.
fn read_uint(b: &Vec<u8>, i: usize) -> (r: Option<(u64, usize)>)
    ensures
        match r {
            Some(t) => {
                &&& p_uint(b@, i as int) == Some((t.0, t.1 as int))
                &&& i < t.1 <= b.len()
            },
            None => p_uint(b@, i as int) is None,
        },
{
    match read_head(b, i) {
        None => None,
        Some((m, n, j)) => {
            if m != 0 {
                return None;
            }
            Some((n, j))
        },
    }
}

/// Compares two byte strings.
pub(crate) fn eq_bytes(a: &Vec<u8>, b: &Vec<u8>) -> (r: bool)
    ensures
        r == (a@ == b@),
{
    if a.len() != b.len() {
        proof {
            assert(a@ != b@);
        }
        return false;
    }
    let mut k: usize = 0;
    while k < a.len()
        invariant
            k <= a.len(),
            a.len() == b.len(),
            forall|j: int| 0 <= j < k ==> a@[j] == b@[j],
        decreases a.len() - k,
    {
        if a[k] != b[k] {
            proof {
                assert(a@ != b@);
            }
            return false;
        }
        k += 1;
    }
    proof {
        assert(a@ =~= b@);
    }
    true
}

/// Reads a text item that must spell the expected field name. Mirrors
/// `p_field`.
fn read_field(b: &Vec<u8>, i: usize, name: &Vec<u8>) -> (r: Option<usize>)
    ensures
        match r {
            Some(j) => {
                &&& p_field(b@, i as int, name@) == Some(j as int)
                &&& i < j <= b.len()
            },
            None => p_field(b@, i as int, name@) is None,
        },
{
    match read_str(b, i, 3) {
        None => None,
        Some((t, j)) => {
            if eq_bytes(&t, name) {
                Some(j)
            } else {
                None
            }
        },
    }
}

/// Where decoding starts: after the self-describe tag when present.
fn find_start(b: &Vec<u8>) -> (r: usize)
    ensures
        r as int == p_start(b@),
        r <= b.len(),
{
    if b.len() >= 3 && b[0] == 0xd9 && b[1] == 0xd9 && b[2] == 0xf7 {
        proof {
            assert(b@.subrange(0, 3) =~= sd_tag());
        }
        3
    } else {
        proof {
            if b@.len() >= 3 && b@.subrange(0, 3) == sd_tag() {
                assert(b@[0] == 0xd9 && b@[1] == 0xd9 && b@[2] == 0xf7) by {
                    assert(b@.subrange(0, 3)[0] == b@[0]);
                    assert(b@.subrange(0, 3)[1] == b@[1]);
                    assert(b@.subrange(0, 3)[2] == b@[2]);
                };
            }
        }
        0
    }
}

fn bytes_content() -> (r: Vec<u8>)
    ensures
        r@ == name_content(),
{
    let r = vec!['c' as u8, 'o' as u8, 'n' as u8, 't' as u8, 'e' as u8, 'n' as u8, 't' as u8];
    proof {
        assert(r@ =~= name_content());
    }
    r
}

/// Encodes the client's opening frame in its canonical form.
pub fn encode_first_frame(content: &Vec<u8>, sig: &Vec<u8>) -> (r: Vec<u8>)
    ensures
        r@ == enc_first_frame(content@, sig@),
{
    let mut out: Vec<u8> = Vec::new();
    push_tag(&mut out);
    push_head(&mut out, 5, 2);
    let n1 = bytes_content();
    push_text(&mut out, &n1);
    push_bytes(&mut out, content);
    let n2 = bytes_sig();
    push_text(&mut out, &n2);
    push_bytes(&mut out, sig);
    proof {
        assert(out@ =~= enc_first_frame(content@, sig@));
    }
    out
}

/// Decodes the client's opening frame; the result is pinned to
/// `dec_first_frame`.
pub fn decode_first_frame(b: &Vec<u8>) -> (r: Option<(Vec<u8>, Vec<u8>)>)
    ensures
        match r {
            Some(m) => dec_first_frame(b@) == Some((m.0@, m.1@)),
            None => dec_first_frame(b@) is None,
        },
{
    let i0 = find_start(b);
    let (major, n, i1) = match read_head(b, i0) {
        None => {
            return None;
        },
        Some(t) => t,
    };
    if !(major == 5 && n == 2) {
        return None;
    }
    let nc = bytes_content();
    let i2 = match read_field(b, i1, &nc) {
        None => {
            return None;
        },
        Some(j) => j,
    };
    let (content, i3) = match read_str(b, i2, 2) {
        None => {
            return None;
        },
        Some(t) => t,
    };
    let ns = bytes_sig();
    let i4 = match read_field(b, i3, &ns) {
        None => {
            return None;
        },
        Some(j) => j,
    };
    let (sig, i5) = match read_str(b, i4, 2) {
        None => {
            return None;
        },
        Some(t) => t,
    };
    if i5 != b.len() {
        return None;
    }
    Some((content, sig))
}

/// Decodes a client envelope `{val, sig}`; the result is pinned to
/// `dec_client_message`.
pub fn decode_client_message(b: &Vec<u8>) -> (r: Option<ClientMessage>)
    ensures
        match r {
            Some(m) => dec_client_message(b@) == Some((m.val@, m.sig@)),
            None => dec_client_message(b@) is None,
        },
{
    let i0 = find_start(b);
    let (major, n, i1) = match read_head(b, i0) {
        None => {
            return None;
        },
        Some(t) => t,
    };
    if !(major == 5 && n == 2) {
        return None;
    }
    let nv = bytes_val();
    let i2 = match read_field(b, i1, &nv) {
        None => {
            return None;
        },
        Some(j) => j,
    };
    let (val, i3) = match read_str(b, i2, 2) {
        None => {
            return None;
        },
        Some(t) => t,
    };
    let ns = bytes_sig();
    let i4 = match read_field(b, i3, &ns) {
        None => {
            return None;
        },
        Some(j) => j,
    };
    let (sig, i5) = match read_str(b, i4, 2) {
        None => {
            return None;
        },
        Some(t) => t,
    };
    if i5 != b.len() {
        return None;
    }
    Some(ClientMessage { val, sig })
}

/// Decodes a `WebsocketMessage`; the result is pinned to
/// `dec_websocket_message`.
pub fn decode_websocket_message(b: &Vec<u8>) -> (r: Option<WebsocketMessage>)
    ensures
        match r {
            Some(m) => dec_websocket_message(b@) == Some(
                (m.client_id, m.sequence_num, m.timestamp, m.message@),
            ),
            None => dec_websocket_message(b@) is None,
        },
{
    let i0 = find_start(b);
    let (major, n, i1) = match read_head(b, i0) {
        None => {
            return None;
        },
        Some(t) => t,
    };
    if !(major == 5 && n == 4) {
        return None;
    }
    let n1 = bytes_client_id();
    let i2 = match read_field(b, i1, &n1) {
        None => {
            return None;
        },
        Some(j) => j,
    };
    let (cid, i3) = match read_uint(b, i2) {
        None => {
            return None;
        },
        Some(t) => t,
    };
    let n2 = bytes_sequence_num();
    let i4 = match read_field(b, i3, &n2) {
        None => {
            return None;
        },
        Some(j) => j,
    };
    let (sn, i5) = match read_uint(b, i4) {
        None => {
            return None;
        },
        Some(t) => t,
    };
    let n3 = bytes_timestamp();
    let i6 = match read_field(b, i5, &n3) {
        None => {
            return None;
        },
        Some(j) => j,
    };
    let (ts, i7) = match read_uint(b, i6) {
        None => {
            return None;
        },
        Some(t) => t,
    };
    let n4 = bytes_message();
    let i8 = match read_field(b, i7, &n4) {
        None => {
            return None;
        },
        Some(j) => j,
    };
    let (msg, i9) = match read_str(b, i8, 2) {
        None => {
            return None;
        },
        Some(t) => t,
    };
    if i9 != b.len() {
        return None;
    }
    Some(WebsocketMessage { client_id: cid, sequence_num: sn, timestamp: ts, message: msg })
}

/// Decodes the handshake's first message; the result is pinned to
/// `dec_first_message`.
pub fn decode_first_message(b: &Vec<u8>) -> (r: Option<FirstMessage>)
    ensures
        match r {
            Some(m) => dec_first_message(b@) == Some((m.client_id, m.canister_id@)),
            None => dec_first_message(b@) is None,
        },
{
    let i0 = find_start(b);
    let (major, n, i1) = match read_head(b, i0) {
        None => {
            return None;
        },
        Some(t) => t,
    };
    if !(major == 5 && n == 2) {
        return None;
    }
    let n1 = bytes_client_id();
    let i2 = match read_field(b, i1, &n1) {
        None => {
            return None;
        },
        Some(j) => j,
    };
    let (cid, i3) = match read_uint(b, i2) {
        None => {
            return None;
        },
        Some(t) => t,
    };
    let n2 = bytes_canister_id();
    let i4 = match read_field(b, i3, &n2) {
        None => {
            return None;
        },
        Some(j) => j,
    };
    let (can, i5) = match read_str(b, i4, 3) {
        None => {
            return None;
        },
        Some(t) => t,
    };
    if i5 != b.len() {
        return None;
    }
    Some(FirstMessage { client_id: cid, canister_id: can })
}

/// Decodes the demo application's message; the result is pinned to
/// `dec_app_message`.
pub fn decode_app_message(b: &Vec<u8>) -> (r: Option<AppMessage>)
    ensures
        match r {
            Some(m) => dec_app_message(b@) == Some(m.text@),
            None => dec_app_message(b@) is None,
        },
{
    let i0 = find_start(b);
    let (major, n, i1) = match read_head(b, i0) {
        None => {
            return None;
        },
        Some(t) => t,
    };
    if !(major == 5 && n == 1) {
        return None;
    }
    let n1 = bytes_text();
    let i2 = match read_field(b, i1, &n1) {
        None => {
            return None;
        },
        Some(j) => j,
    };
    let (t, i3) = match read_str(b, i2, 3) {
        None => {
            return None;
        },
        Some(p) => p,
    };
    if i3 != b.len() {
        return None;
    }
    Some(AppMessage { text: t })
}

} // verus!
