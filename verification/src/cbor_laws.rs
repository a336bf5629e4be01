//! The codec validates itself: decoding a canonical encoding yields
//! the encoded values back.

use crate::cbor::{
    dec_app_message, dec_client_message, dec_websocket_message, enc_app_message, enc_bytes,
    enc_client_message, enc_head, enc_text, enc_uint, enc_websocket_message, name_client_id,
    name_message, name_sequence_num, name_sig, name_text, name_timestamp, name_val, p_bytes,
    p_field, p_head, p_start, p_str, p_text, p_uint, sd_tag,
};
use vstd::prelude::*;

verus! {

/// Splitting `x` at a power boundary: the middle digits come out of
/// the remainder the same as out of the whole.
proof fn lemma_mid(x: int, y: int, z: int)
    requires
        x >= 0,
        y > 0,
        z > 0,
    ensures
        (x % (y * z)) / y == (x / y) % z,
{
    vstd::arithmetic::div_mod::lemma_mod_breakdown(x, y, z);
    let a = (x / y) % z;
    let r = x % y;
    vstd::arithmetic::div_mod::lemma_mod_bound(x, y);
    vstd::arithmetic::div_mod::lemma_div_pos_is_pos(x, y);
    vstd::arithmetic::div_mod::lemma_mod_bound(x / y, z);
    assert((y * a + r) / y == a) by (nonlinear_arith)
        requires
            y > 0,
            0 <= r < y,
            a >= 0,
    ;
}

proof fn lemma_modmod(x: int, y: int, z: int)
    requires
        x >= 0,
        y > 0,
        z > 0,
    ensures
        (x % (y * z)) % y == x % y,
{
    vstd::arithmetic::div_mod::lemma_mod_mod(x, y, z);
}

/// A 64-bit value equals the weighted sum of its eight big-endian bytes.
proof fn lemma_u64_from_bytes(x: int)
    requires
        0 <= x < 0x10000000000000000,
    ensures
        x == (x / 0x100000000000000) * 0x100000000000000 + ((x / 0x1000000000000)
            % 0x100) * 0x1000000000000 + ((x / 0x10000000000) % 0x100) * 0x10000000000 + ((x
            / 0x100000000) % 0x100) * 0x100000000 + ((x / 0x1000000) % 0x100) * 0x1000000 + ((x
            / 0x10000) % 0x100) * 0x10000 + ((x / 0x100) % 0x100) * 0x100 + x % 0x100,
{
    vstd::arithmetic::div_mod::lemma_fundamental_div_mod(x, 0x100000000000000);
    lemma_mid(x, 0x1000000000000, 0x100);
    lemma_modmod(x, 0x1000000000000, 0x100);
    vstd::arithmetic::div_mod::lemma_fundamental_div_mod(x % 0x100000000000000, 0x1000000000000);
    lemma_mid(x, 0x10000000000, 0x100);
    lemma_modmod(x, 0x10000000000, 0x100);
    vstd::arithmetic::div_mod::lemma_fundamental_div_mod(x % 0x1000000000000, 0x10000000000);
    lemma_mid(x, 0x100000000, 0x100);
    lemma_modmod(x, 0x100000000, 0x100);
    vstd::arithmetic::div_mod::lemma_fundamental_div_mod(x % 0x10000000000, 0x100000000);
    lemma_mid(x, 0x1000000, 0x100);
    lemma_modmod(x, 0x1000000, 0x100);
    vstd::arithmetic::div_mod::lemma_fundamental_div_mod(x % 0x100000000, 0x1000000);
    lemma_mid(x, 0x10000, 0x100);
    lemma_modmod(x, 0x10000, 0x100);
    vstd::arithmetic::div_mod::lemma_fundamental_div_mod(x % 0x1000000, 0x10000);
    lemma_mid(x, 0x100, 0x100);
    lemma_modmod(x, 0x100, 0x100);
    vstd::arithmetic::div_mod::lemma_fundamental_div_mod(x % 0x10000, 0x100);
}

/// A 32-bit value equals the weighted sum of its four big-endian bytes.
proof fn lemma_u32_from_bytes(x: int)
    requires
        0 <= x < 0x100000000,
    ensures
        x == (x / 0x1000000) * 0x1000000 + ((x / 0x10000) % 0x100) * 0x10000 + ((x / 0x100)
            % 0x100) * 0x100 + x % 0x100,
{
    vstd::arithmetic::div_mod::lemma_fundamental_div_mod(x, 0x1000000);
    lemma_mid(x, 0x10000, 0x100);
    lemma_modmod(x, 0x10000, 0x100);
    vstd::arithmetic::div_mod::lemma_fundamental_div_mod(x % 0x1000000, 0x10000);
    lemma_mid(x, 0x100, 0x100);
    lemma_modmod(x, 0x100, 0x100);
    vstd::arithmetic::div_mod::lemma_fundamental_div_mod(x % 0x10000, 0x100);
}

proof fn lemma_divmod32(m: int, a: int)
    requires
        0 <= m < 8,
        0 <= a < 32,
    ensures
        (m * 32 + a) / 32 == m,
        (m * 32 + a) % 32 == a,
{
    assert((m * 32 + a) / 32 == m && (m * 32 + a) % 32 == a) by (nonlinear_arith)
        requires
            0 <= m < 8,
            0 <= a < 32,
    ;
}

/// A head written at offset `i` reads back as written.
proof fn lemma_p_head_enc(b: Seq<u8>, i: int, major: int, v: u64)
    requires
        0 <= major < 8,
        0 <= i,
        i + enc_head(major, v as int).len() <= b.len(),
        b.subrange(i, i + enc_head(major, v as int).len()) == enc_head(major, v as int),
    ensures
        p_head(b, i) == Some((major, v, i + enc_head(major, v as int).len())),
{
    let x = v as int;
    let h = enc_head(major, x);
    assert forall|k: int| 0 <= k < h.len() implies b[i + k] == h[k] by {
        assert(b.subrange(i, i + h.len())[k] == b[i + k]);
    }
    assert(0 <= major * 32 + 27 < 256) by (nonlinear_arith)
        requires
            0 <= major < 8,
    ;
    if x < 24 {
        assert(0 <= major * 32 + x < 256) by (nonlinear_arith)
            requires
                0 <= major < 8,
                0 <= x < 24,
        ;
        assert(h[0] == (major * 32 + x) as u8);
        assert(b[i] as int == major * 32 + x);
        lemma_divmod32(major, x);
    } else if x < 0x100 {
        lemma_divmod32(major, 24);
        assert(b[i] as int == major * 32 + 24);
        assert(b[i + 1] as int == x);
    } else if x < 0x10000 {
        lemma_divmod32(major, 25);
        assert(b[i] as int == major * 32 + 25);
        vstd::arithmetic::div_mod::lemma_mod_bound(x, 0x100);
        assert(0 <= x / 0x100 < 0x100) by (nonlinear_arith)
            requires
                0x100 <= x < 0x10000,
        ;
        vstd::arithmetic::div_mod::lemma_fundamental_div_mod(x, 0x100);
        assert((b[i + 1] as int) * 0x100 + (b[i + 2] as int) == x);
    } else if x < 0x100000000 {
        lemma_divmod32(major, 26);
        assert(b[i] as int == major * 32 + 26);
        vstd::arithmetic::div_mod::lemma_mod_bound(x, 0x100);
        vstd::arithmetic::div_mod::lemma_mod_bound(x / 0x100, 0x100);
        vstd::arithmetic::div_mod::lemma_mod_bound(x / 0x10000, 0x100);
        assert(0 <= x / 0x1000000 < 0x100) by (nonlinear_arith)
            requires
                0x10000 <= x < 0x100000000,
        ;
        assert(0 <= (x / 0x10000) % 0x100 < 0x100 && 0 <= (x / 0x100) % 0x100 < 0x100 && 0 <= x
            % 0x100 < 0x100) by (nonlinear_arith)
            requires
                x >= 0,
        ;
        lemma_u32_from_bytes(x);
        assert((b[i + 1] as int) * 0x1000000 + (b[i + 2] as int) * 0x10000 + (b[i
            + 3] as int) * 0x100 + (b[i + 4] as int) == x);
    } else {
        lemma_divmod32(major, 27);
        assert(b[i] as int == major * 32 + 27);
        assert(0 <= x / 0x100000000000000 < 0x100) by (nonlinear_arith)
            requires
                0x100000000 <= x < 0x10000000000000000,
        ;
        assert(0 <= (x / 0x1000000000000) % 0x100 < 0x100 && 0 <= (x / 0x10000000000) % 0x100
            < 0x100 && 0 <= (x / 0x100000000) % 0x100 < 0x100 && 0 <= (x / 0x1000000) % 0x100
            < 0x100 && 0 <= (x / 0x10000) % 0x100 < 0x100 && 0 <= (x / 0x100) % 0x100 < 0x100 && 0
            <= x % 0x100 < 0x100) by (nonlinear_arith)
            requires
                x >= 0,
        ;
        lemma_u64_from_bytes(x);
        assert((b[i + 1] as int) * 0x100000000000000 + (b[i + 2] as int) * 0x1000000000000 + (b[i
            + 3] as int) * 0x10000000000 + (b[i + 4] as int) * 0x100000000 + (b[i
            + 5] as int) * 0x1000000 + (b[i + 6] as int) * 0x10000 + (b[i + 7] as int) * 0x100 + (
        b[i + 8] as int) == x);
    }
}

/// A string item written at offset `i` reads back as written.
proof fn lemma_p_str_enc(b: Seq<u8>, i: int, major: int, payload: Seq<u8>)
    requires
        2 <= major <= 3,
        0 <= i,
        payload.len() < 0x10000000000000000,
        i + enc_head(major, payload.len() as int).len() + payload.len() <= b.len(),
        b.subrange(
            i,
            i + enc_head(major, payload.len() as int).len() + payload.len(),
        ) == enc_head(major, payload.len() as int) + payload,
    ensures
        p_str(b, i, major) == Some(
            (payload, i + enc_head(major, payload.len() as int).len() + payload.len()),
        ),
{
    let hl = enc_head(major, payload.len() as int).len() as int;
    let total = hl + payload.len() as int;
    assert(b.subrange(i, i + hl) =~= enc_head(major, payload.len() as int)) by {
        assert forall|k: int| 0 <= k < hl implies b.subrange(i, i + hl)[k] == enc_head(
            major,
            payload.len() as int,
        )[k] by {
            assert(b.subrange(i, i + total)[k] == b[i + k]);
            assert(b.subrange(i, i + hl)[k] == b[i + k]);
            assert((enc_head(major, payload.len() as int) + payload)[k] == enc_head(
                major,
                payload.len() as int,
            )[k]);
        }
    };
    lemma_p_head_enc(b, i, major, payload.len() as u64);
    assert(b.subrange(i + hl, i + total) =~= payload) by {
        assert forall|k: int| 0 <= k < payload.len() implies b.subrange(i + hl, i + total)[k]
            == payload[k] by {
            assert(b.subrange(i, i + total)[hl + k] == b[i + hl + k]);
            assert((enc_head(major, payload.len() as int) + payload)[hl + k] == payload[k]);
        }
    };
}

/// A whole client envelope encoded canonically decodes to its fields.
/// The encoding is therefore never rejected by the plane's own parser.
#[verifier::rlimit(100)]
pub proof fn lemma_client_message_round_trip(val: Seq<u8>, sig: Seq<u8>)
    requires
        val.len() < 0x10000000000000000,
        sig.len() < 0x10000000000000000,
    ensures
        dec_client_message(enc_client_message(val, sig)) == Some((val, sig)),
{
    let b = enc_client_message(val, sig);
    let p1 = enc_text(name_val());
    let p2 = enc_bytes(val);
    let p3 = enc_text(name_sig());
    let p4 = enc_bytes(sig);
    let o1 = 4int;
    let o2 = o1 + p1.len() as int;
    let o3 = o2 + p2.len() as int;
    let o4 = o3 + p3.len() as int;
    let o5 = o4 + p4.len() as int;
    assert(b.len() == o5);
    assert(b.subrange(0, 3) =~= sd_tag());
    assert(p_start(b) == 3);
    assert(b.subrange(3, 4) =~= enc_head(5, 2));
    lemma_p_head_enc(b, 3, 5, 2);
    assert(b.subrange(o1, o2) =~= p1);
    assert(b.subrange(o2, o3) =~= p2);
    assert(b.subrange(o3, o4) =~= p3);
    assert(b.subrange(o4, o5) =~= p4);
    lemma_p_str_enc(b, o1, 3, name_val());
    assert(p_field(b, o1, name_val()) == Some(o2));
    lemma_p_str_enc(b, o2, 2, val);
    assert(p_bytes(b, o2) == Some((val, o3)));
    lemma_p_str_enc(b, o3, 3, name_sig());
    assert(p_field(b, o3, name_sig()) == Some(o4));
    lemma_p_str_enc(b, o4, 2, sig);
    assert(p_bytes(b, o4) == Some((sig, o5)));
}

/// An application payload encoded canonically decodes to its text.
pub proof fn lemma_app_message_round_trip(text: Seq<u8>)
    requires
        text.len() < 0x10000000000000000,
    ensures
        dec_app_message(enc_app_message(text)) == Some(text),
{
    let b = enc_app_message(text);
    let p1 = enc_text(name_text());
    let p2 = enc_text(text);
    let o1 = 4int;
    let o2 = o1 + p1.len() as int;
    let o3 = o2 + p2.len() as int;
    assert(b.len() == o3);
    assert(b.subrange(0, 3) =~= sd_tag());
    assert(p_start(b) == 3);
    assert(b.subrange(3, 4) =~= enc_head(5, 1));
    lemma_p_head_enc(b, 3, 5, 1);
    assert(b.subrange(o1, o2) =~= p1);
    assert(b.subrange(o2, o3) =~= p2);
    lemma_p_str_enc(b, o1, 3, name_text());
    assert(p_field(b, o1, name_text()) == Some(o2));
    lemma_p_str_enc(b, o2, 3, text);
    assert(p_text(b, o2) == Some((text, o3)));
}


/// The tail of a concatenation, cut out again.
proof fn lemma_concat_last(a: Seq<u8>, p: Seq<u8>)
    ensures
        (a + p).subrange(a.len() as int, (a.len() + p.len()) as int) == p,
{
    assert((a + p).subrange(a.len() as int, (a.len() + p.len()) as int) =~= p);
}

/// A cut that stays inside the left part of a concatenation ignores
/// the right part.
proof fn lemma_concat_prefix(a: Seq<u8>, p: Seq<u8>, x: int, y: int)
    requires
        0 <= x <= y <= a.len(),
    ensures
        (a + p).subrange(x, y) == a.subrange(x, y),
{
    assert((a + p).subrange(x, y) =~= a.subrange(x, y));
}

/// An unsigned integer written at offset `i` reads back as written.
proof fn lemma_p_uint_enc(b: Seq<u8>, i: int, v: u64)
    requires
        0 <= i,
        i + enc_uint(v).len() <= b.len(),
        b.subrange(i, i + enc_uint(v).len()) == enc_uint(v),
    ensures
        p_uint(b, i) == Some((v, i + enc_uint(v).len())),
{
    lemma_p_head_enc(b, i, 0, v);
}

/// A whole message encoded canonically decodes to its four fields.
/// Where each piece of a canonically encoded message sits.
#[verifier::rlimit(100)]
proof fn lemma_ws_layout(client_id: u64, sequence_num: u64, timestamp: u64, message: Seq<u8>)
    ensures
        ({
            let b = enc_websocket_message(client_id, sequence_num, timestamp, message);
            let p1 = enc_text(name_client_id());
            let p2 = enc_uint(client_id);
            let p3 = enc_text(name_sequence_num());
            let p4 = enc_uint(sequence_num);
            let p5 = enc_text(name_timestamp());
            let p6 = enc_uint(timestamp);
            let p7 = enc_text(name_message());
            let p8 = enc_bytes(message);
            let o1 = 4int;
            let o2 = o1 + p1.len() as int;
            let o3 = o2 + p2.len() as int;
            let o4 = o3 + p3.len() as int;
            let o5 = o4 + p4.len() as int;
            let o6 = o5 + p5.len() as int;
            let o7 = o6 + p6.len() as int;
            let o8 = o7 + p7.len() as int;
            let o9 = o8 + p8.len() as int;
            &&& b.len() == o9
            &&& b.subrange(0, 3) == sd_tag()
            &&& b.subrange(3, 4) == enc_head(5, 4)
            &&& b.subrange(o1, o2) == p1
            &&& b.subrange(o2, o3) == p2
            &&& b.subrange(o3, o4) == p3
            &&& b.subrange(o4, o5) == p4
            &&& b.subrange(o5, o6) == p5
            &&& b.subrange(o6, o7) == p6
            &&& b.subrange(o7, o8) == p7
            &&& b.subrange(o8, o9) == p8
        }),
{
    let b = enc_websocket_message(client_id, sequence_num, timestamp, message);
    let p1 = enc_text(name_client_id());
    let p2 = enc_uint(client_id);
    let p3 = enc_text(name_sequence_num());
    let p4 = enc_uint(sequence_num);
    let p5 = enc_text(name_timestamp());
    let p6 = enc_uint(timestamp);
    let p7 = enc_text(name_message());
    let p8 = enc_bytes(message);
    let c0 = sd_tag() + enc_head(5, 4);
    let c1 = c0 + p1;
    let c2 = c1 + p2;
    let c3 = c2 + p3;
    let c4 = c3 + p4;
    let c5 = c4 + p5;
    let c6 = c5 + p6;
    let c7 = c6 + p7;
    let c8 = c7 + p8;
    assert(b == c8);
    let o1 = 4int;
    let o2 = o1 + p1.len() as int;
    let o3 = o2 + p2.len() as int;
    let o4 = o3 + p3.len() as int;
    let o5 = o4 + p4.len() as int;
    let o6 = o5 + p5.len() as int;
    let o7 = o6 + p6.len() as int;
    let o8 = o7 + p7.len() as int;
    let o9 = o8 + p8.len() as int;
    assert(b.subrange(0, 3) == sd_tag()) by {
        lemma_concat_prefix(c7, p8, 0, 3);
        lemma_concat_prefix(c6, p7, 0, 3);
        lemma_concat_prefix(c5, p6, 0, 3);
        lemma_concat_prefix(c4, p5, 0, 3);
        lemma_concat_prefix(c3, p4, 0, 3);
        lemma_concat_prefix(c2, p3, 0, 3);
        lemma_concat_prefix(c1, p2, 0, 3);
        lemma_concat_prefix(c0, p1, 0, 3);
        assert(c0.subrange(0, 3) =~= sd_tag());
    };
    assert(b.subrange(3, 4) == enc_head(5, 4)) by {
        lemma_concat_prefix(c7, p8, 3, 4);
        lemma_concat_prefix(c6, p7, 3, 4);
        lemma_concat_prefix(c5, p6, 3, 4);
        lemma_concat_prefix(c4, p5, 3, 4);
        lemma_concat_prefix(c3, p4, 3, 4);
        lemma_concat_prefix(c2, p3, 3, 4);
        lemma_concat_prefix(c1, p2, 3, 4);
        lemma_concat_prefix(c0, p1, 3, 4);
        assert(c0.subrange(3, 4) =~= enc_head(5, 4));
    };
    assert(b.subrange(o1, o2) == p1) by {
        lemma_concat_prefix(c7, p8, o1, o2);
        lemma_concat_prefix(c6, p7, o1, o2);
        lemma_concat_prefix(c5, p6, o1, o2);
        lemma_concat_prefix(c4, p5, o1, o2);
        lemma_concat_prefix(c3, p4, o1, o2);
        lemma_concat_prefix(c2, p3, o1, o2);
        lemma_concat_prefix(c1, p2, o1, o2);
        lemma_concat_last(c0, p1);
    };
    assert(b.subrange(o2, o3) == p2) by {
        lemma_concat_prefix(c7, p8, o2, o3);
        lemma_concat_prefix(c6, p7, o2, o3);
        lemma_concat_prefix(c5, p6, o2, o3);
        lemma_concat_prefix(c4, p5, o2, o3);
        lemma_concat_prefix(c3, p4, o2, o3);
        lemma_concat_prefix(c2, p3, o2, o3);
        lemma_concat_last(c1, p2);
    };
    assert(b.subrange(o3, o4) == p3) by {
        lemma_concat_prefix(c7, p8, o3, o4);
        lemma_concat_prefix(c6, p7, o3, o4);
        lemma_concat_prefix(c5, p6, o3, o4);
        lemma_concat_prefix(c4, p5, o3, o4);
        lemma_concat_prefix(c3, p4, o3, o4);
        lemma_concat_last(c2, p3);
    };
    assert(b.subrange(o4, o5) == p4) by {
        lemma_concat_prefix(c7, p8, o4, o5);
        lemma_concat_prefix(c6, p7, o4, o5);
        lemma_concat_prefix(c5, p6, o4, o5);
        lemma_concat_prefix(c4, p5, o4, o5);
        lemma_concat_last(c3, p4);
    };
    assert(b.subrange(o5, o6) == p5) by {
        lemma_concat_prefix(c7, p8, o5, o6);
        lemma_concat_prefix(c6, p7, o5, o6);
        lemma_concat_prefix(c5, p6, o5, o6);
        lemma_concat_last(c4, p5);
    };
    assert(b.subrange(o6, o7) == p6) by {
        lemma_concat_prefix(c7, p8, o6, o7);
        lemma_concat_prefix(c6, p7, o6, o7);
        lemma_concat_last(c5, p6);
    };
    assert(b.subrange(o7, o8) == p7) by {
        lemma_concat_prefix(c7, p8, o7, o8);
        lemma_concat_last(c6, p7);
    };
    assert(b.subrange(o8, o9) == p8) by {
        lemma_concat_last(c7, p8);
    };
}

/// The parse facts over a canonically encoded message.
#[verifier::rlimit(100)]
proof fn lemma_ws_parse_facts(client_id: u64, sequence_num: u64, timestamp: u64, message: Seq<u8>)
    requires
        message.len() < 0x10000000000000000,
    ensures
        ({
            let b = enc_websocket_message(client_id, sequence_num, timestamp, message);
            let o1 = 4int;
            let o2 = o1 + enc_text(name_client_id()).len() as int;
            let o3 = o2 + enc_uint(client_id).len() as int;
            let o4 = o3 + enc_text(name_sequence_num()).len() as int;
            let o5 = o4 + enc_uint(sequence_num).len() as int;
            let o6 = o5 + enc_text(name_timestamp()).len() as int;
            let o7 = o6 + enc_uint(timestamp).len() as int;
            let o8 = o7 + enc_text(name_message()).len() as int;
            let o9 = o8 + enc_bytes(message).len() as int;
            &&& b.len() == o9
            &&& p_start(b) == 3
            &&& p_head(b, 3) == Some((5int, 4u64, o1))
            &&& p_field(b, o1, name_client_id()) == Some(o2)
            &&& p_uint(b, o2) == Some((client_id, o3))
            &&& p_field(b, o3, name_sequence_num()) == Some(o4)
            &&& p_uint(b, o4) == Some((sequence_num, o5))
            &&& p_field(b, o5, name_timestamp()) == Some(o6)
            &&& p_uint(b, o6) == Some((timestamp, o7))
            &&& p_field(b, o7, name_message()) == Some(o8)
            &&& p_bytes(b, o8) == Some((message, o9))
        }),
{
    let b = enc_websocket_message(client_id, sequence_num, timestamp, message);
    let o1 = 4int;
    let o2 = o1 + enc_text(name_client_id()).len() as int;
    let o3 = o2 + enc_uint(client_id).len() as int;
    let o4 = o3 + enc_text(name_sequence_num()).len() as int;
    let o5 = o4 + enc_uint(sequence_num).len() as int;
    let o6 = o5 + enc_text(name_timestamp()).len() as int;
    let o7 = o6 + enc_uint(timestamp).len() as int;
    let o8 = o7 + enc_text(name_message()).len() as int;
    let o9 = o8 + enc_bytes(message).len() as int;
    lemma_ws_layout(client_id, sequence_num, timestamp, message);
    assert(p_start(b) == 3);
    lemma_p_head_enc(b, 3, 5, 4);
    lemma_p_str_enc(b, o1, 3, name_client_id());
    assert(p_field(b, o1, name_client_id()) == Some(o2));
    lemma_p_uint_enc(b, o2, client_id);
    lemma_p_str_enc(b, o3, 3, name_sequence_num());
    assert(p_field(b, o3, name_sequence_num()) == Some(o4));
    lemma_p_uint_enc(b, o4, sequence_num);
    lemma_p_str_enc(b, o5, 3, name_timestamp());
    assert(p_field(b, o5, name_timestamp()) == Some(o6));
    lemma_p_uint_enc(b, o6, timestamp);
    lemma_p_str_enc(b, o7, 3, name_message());
    assert(p_field(b, o7, name_message()) == Some(o8));
    lemma_p_str_enc(b, o8, 2, message);
    assert(p_bytes(b, o8) == Some((message, o9)));
}

/// A whole message encoded canonically decodes to its four fields.
#[verifier::rlimit(100)]
pub proof fn lemma_websocket_message_round_trip(
    client_id: u64,
    sequence_num: u64,
    timestamp: u64,
    message: Seq<u8>,
)
    requires
        message.len() < 0x10000000000000000,
    ensures
        dec_websocket_message(enc_websocket_message(client_id, sequence_num, timestamp, message))
            == Some((client_id, sequence_num, timestamp, message)),
{
    lemma_ws_parse_facts(client_id, sequence_num, timestamp, message);
}

} // verus!
