//! Message keys: `"<gateway>_<nonce>"` with the nonce written as a
//! 20-digit zero-padded decimal, so that the lexicographic order of keys
//! with the same gateway prefix agrees with the numeric order of nonces.

use vstd::prelude::*;
use vstd::string::StrSliceExecFns;
use vstd::string::StringExecFns;

verus! {

/// `10^e` as a mathematical integer.
pub open spec fn pow10(e: int) -> int
    decreases e,
{
    if e <= 0 {
        1
    } else {
        10 * pow10(e - 1)
    }
}

/// The decimal digit `d` (0 through 9) as a character.
pub open spec fn digit_char(d: int) -> char {
    if d == 0 {
        '0'
    } else if d == 1 {
        '1'
    } else if d == 2 {
        '2'
    } else if d == 3 {
        '3'
    } else if d == 4 {
        '4'
    } else if d == 5 {
        '5'
    } else if d == 6 {
        '6'
    } else if d == 7 {
        '7'
    } else if d == 8 {
        '8'
    } else {
        '9'
    }
}

/// The last `e` decimal digits of `n`, most significant first.
pub open spec fn decimal_digits(n: int, e: int) -> Seq<char>
    decreases e,
{
    if e <= 0 {
        Seq::empty()
    } else {
        seq![digit_char((n / pow10(e - 1)) % 10)] + decimal_digits(n % pow10(e - 1), e - 1)
    }
}

/// The 20-digit zero-padded decimal writing of a nonce.
pub open spec fn pad20(n: u64) -> Seq<char> {
    decimal_digits(n as int, 20)
}

/// The key under which an outbound message for gateway `gw` and nonce `n`
/// is stored.
pub open spec fn key_seq(gw: Seq<char>, n: u64) -> Seq<char> {
    gw + seq!['_'] + pad20(n)
}

/// A padded nonce is always exactly 20 characters.
pub proof fn lemma_pad20_len(n: u64)
    ensures
        pad20(n).len() == 20,
{
    lemma_decimal_digits_len(n as int, 20);
}

/// The length of a decimal writing.
pub proof fn lemma_decimal_digits_len(n: int, e: int)
    ensures
        decimal_digits(n, e).len() == if e <= 0 {
            0int
        } else {
            e
        },
    decreases e,
{
    if e > 0 {
        lemma_decimal_digits_len(n % pow10(e - 1), e - 1);
    }
}

/// Strict lexicographic order on character sequences, by code point.
pub open spec fn lex_lt(a: Seq<char>, b: Seq<char>) -> bool
    decreases a.len(),
{
    if b.len() == 0 {
        false
    } else if a.len() == 0 {
        true
    } else if (a[0] as int) < (b[0] as int) {
        true
    } else if (a[0] as int) > (b[0] as int) {
        false
    } else {
        lex_lt(a.drop_first(), b.drop_first())
    }
}

pub proof fn lemma_pow10_pos(e: int)
    ensures
        pow10(e) >= 1,
    decreases e,
{
    if e > 0 {
        lemma_pow10_pos(e - 1);
    }
}

proof fn lemma_digit_char_lt(d1: int, d2: int)
    requires
        0 <= d1 < 10,
        0 <= d2 < 10,
        d1 < d2,
    ensures
        (digit_char(d1) as int) < (digit_char(d2) as int),
{
}


/// Numeric order of bounded naturals is decimal lexicographic order.
proof fn lemma_decimal_digits_lt(a: int, b: int, e: int)
    requires
        0 <= a < b,
        b < pow10(e),
    ensures
        lex_lt(decimal_digits(a, e), decimal_digits(b, e)),
    decreases e,
{
    lemma_pow10_pos(e);
    if e <= 0 {
        assert(false);
    } else {
        let p = pow10(e - 1);
        lemma_pow10_pos(e - 1);
        let la = a / p;
        let lb = b / p;
        assert(0 <= la <= lb < 10 && a % p < p && b % p < p && a == p * la + a % p && b == p * lb
            + b % p) by (nonlinear_arith)
            requires
                0 <= a < b < 10 * p,
                p >= 1,
                la == a / p,
                lb == b / p,
        ;
        let da = decimal_digits(a, e);
        let db = decimal_digits(b, e);
        assert(da[0] == digit_char(la % 10) && db[0] == digit_char(lb % 10));
        assert(la % 10 == la && lb % 10 == lb);
        if la < lb {
            lemma_digit_char_lt(la, lb);
            assert(lex_lt(da, db));
        } else {
            assert(a % p < b % p);
            lemma_decimal_digits_lt(a % p, b % p, e - 1);
            assert(da.drop_first() =~= decimal_digits(a % p, e - 1));
            assert(db.drop_first() =~= decimal_digits(b % p, e - 1));
            assert((da[0] as int) == (db[0] as int));
            assert(lex_lt(da, db));
        }
    }
}

/// A sequence is never lexicographically below itself.
proof fn lemma_lex_lt_irreflexive(a: Seq<char>)
    ensures
        !lex_lt(a, a),
    decreases a.len(),
{
    if a.len() > 0 {
        lemma_lex_lt_irreflexive(a.drop_first());
    }
}

/// Prepending a common prefix does not change the order of the tails.
proof fn lemma_lex_lt_common_prefix(p: Seq<char>, a: Seq<char>, b: Seq<char>)
    ensures
        lex_lt(p + a, p + b) == lex_lt(a, b),
    decreases p.len(),
{
    if p.len() == 0 {
        assert(p + a =~= a);
        assert(p + b =~= b);
    } else {
        lemma_lex_lt_common_prefix(p.drop_first(), a, b);
        assert((p + a).drop_first() =~= p.drop_first() + a);
        assert((p + b).drop_first() =~= p.drop_first() + b);
    }
}

/// Nonce order is key order for a fixed gateway: the zero padding makes
/// the lexicographic order of key strings agree with the numeric order
/// of their nonces.
pub proof fn lemma_key_order(gw: Seq<char>, n1: u64, n2: u64)
    requires
        n1 < n2,
    ensures
        lex_lt(key_seq(gw, n1), key_seq(gw, n2)),
{
    assert(n2 < pow10(20)) by {
        reveal_with_fuel(pow10, 21);
    };
    lemma_decimal_digits_lt(n1 as int, n2 as int, 20);
    lemma_lex_lt_common_prefix(gw + seq!['_'], pad20(n1), pad20(n2));
    assert(key_seq(gw, n1) =~= (gw + seq!['_']) + pad20(n1));
    assert(key_seq(gw, n2) =~= (gw + seq!['_']) + pad20(n2));
}

/// Distinct nonces give distinct paddings.
pub proof fn lemma_pad20_injective(n1: u64, n2: u64)
    requires
        n1 != n2,
    ensures
        pad20(n1) != pad20(n2),
{
    let (a, b) = if n1 < n2 {
        (n1, n2)
    } else {
        (n2, n1)
    };
    assert(b < pow10(20)) by {
        reveal_with_fuel(pow10, 21);
    };
    lemma_decimal_digits_lt(a as int, b as int, 20);
    lemma_lex_lt_irreflexive(pad20(a));
}

/// Keys determine the gateway and the nonce: two equal keys come from
/// the same gateway and the same nonce.
pub proof fn lemma_key_injective(g1: Seq<char>, n1: u64, g2: Seq<char>, n2: u64)
    requires
        key_seq(g1, n1) == key_seq(g2, n2),
    ensures
        g1 == g2,
        n1 == n2,
{
    lemma_decimal_digits_len(n1 as int, 20);
    lemma_decimal_digits_len(n2 as int, 20);
    let k1 = key_seq(g1, n1);
    let k2 = key_seq(g2, n2);
    assert(k1.len() == g1.len() + 21);
    assert(k2.len() == g2.len() + 21);
    assert(g1.len() == g2.len());
    assert(g1 =~= k1.subrange(0, g1.len() as int)) by {
        assert forall|i: int| 0 <= i < g1.len() implies k1[i] == g1[i] by {}
    };
    assert(g2 =~= k2.subrange(0, g2.len() as int)) by {
        assert forall|i: int| 0 <= i < g2.len() implies k2[i] == g2[i] by {}
    };
    assert(g1 == g2);
    assert(pad20(n1) =~= k1.subrange(g1.len() as int + 1, k1.len() as int)) by {
        assert forall|i: int| 0 <= i < 20 implies k1[g1.len() + 1 + i] == pad20(n1)[i] by {}
    };
    assert(pad20(n2) =~= k2.subrange(g2.len() as int + 1, k2.len() as int)) by {
        assert forall|i: int| 0 <= i < 20 implies k2[g2.len() + 1 + i] == pad20(n2)[i] by {}
    };
    if n1 != n2 {
        lemma_pad20_injective(n1, n2);
        assert(false);
    }
}

/// One decimal digit as a one-character string slice.
fn digit_str(d: u64) -> (s: &'static str)
    requires
        d < 10,
    ensures
        s@ =~= seq![digit_char(d as int)],
{
    proof {
        reveal_strlit("0");
        reveal_strlit("1");
        reveal_strlit("2");
        reveal_strlit("3");
        reveal_strlit("4");
        reveal_strlit("5");
        reveal_strlit("6");
        reveal_strlit("7");
        reveal_strlit("8");
        reveal_strlit("9");
    }
    if d == 0 {
        "0"
    } else if d == 1 {
        "1"
    } else if d == 2 {
        "2"
    } else if d == 3 {
        "3"
    } else if d == 4 {
        "4"
    } else if d == 5 {
        "5"
    } else if d == 6 {
        "6"
    } else if d == 7 {
        "7"
    } else if d == 8 {
        "8"
    } else {
        "9"
    }
}

/// Writes `n` as exactly 20 decimal digits, zero padded on the left.
pub fn format_nonce(n: u64) -> (s: String)
    ensures
        s@ == pad20(n),
{
    let mut s = String::new();
    let mut rem: u64 = n;
    let mut p: u64 = 10_000_000_000_000_000_000;
    let mut i: usize = 0;
    proof {
        reveal_with_fuel(pow10, 21);
        assert(rem as int == (n as int) % pow10(20)) by {
            vstd::arithmetic::div_mod::lemma_small_mod(n as nat, pow10(20) as nat);
        };
    }
    while i < 20
        invariant
            i <= 20,
            i < 20 ==> p == pow10(19 - i),
            rem as int == (n as int) % pow10(20 - i),
            s@ + decimal_digits(rem as int, 20 - i) =~= pad20(n),
        decreases 20 - i,
    {
        proof {
            lemma_pow10_pos(19 - i);
            assert(pow10(20 - i) == 10 * pow10(19 - i));
            vstd::arithmetic::div_mod::lemma_mod_division_less_than_divisor(
                n as int,
                pow10(20 - i),
            );
            vstd::arithmetic::div_mod::lemma_multiply_divide_lt(rem as int, p as int, 10);
        }
        let d = rem / p;
        let ds = digit_str(d);
        s.append(ds);
        proof {
            let e = 20 - i;
            assert(decimal_digits(rem as int, e) == seq![digit_char((rem as int) / (p as int) % 10)]
                + decimal_digits((rem as int) % (p as int), e - 1));
            assert((rem as int) / (p as int) % 10 == d as int) by {
                vstd::arithmetic::div_mod::lemma_small_mod((d as nat), 10);
            };
            assert((rem % p) as int == (n as int) % pow10(19 - i)) by {
                vstd::arithmetic::div_mod::lemma_mod_mod(n as int, p as int, 10);
                assert(p as int * 10 == pow10(20 - i));
            };
            assert(s@ + decimal_digits((rem % p) as int, 19 - i) =~= pad20(n));
        }
        rem = rem % p;
        if i < 19 {
            proof {
                assert(pow10(19 - i) == 10 * pow10(18 - i));
                lemma_pow10_pos(18 - i);
                assert(p / 10 == pow10(18 - i)) by {
                    vstd::arithmetic::div_mod::lemma_div_multiples_vanish(
                        pow10(18 - i),
                        10,
                    );
                    assert(10 * pow10(18 - i) / 10 == pow10(18 - i));
                };
            }
            p = p / 10;
        }
        i += 1;
    }
    proof {
        assert(s@ + decimal_digits(rem as int, 0) =~= s@);
        assert(s@ =~= pad20(n));
    }
    s
}

/// Builds the storage key for gateway `gw` and nonce `n`.
pub fn make_key(gw: &String, n: u64) -> (k: String)
    ensures
        k@ == key_seq(gw@, n),
{
    proof {
        reveal_strlit("_");
    }
    let mut k = gw.clone();
    k.append("_");
    let digits = format_nonce(n);
    k.append(digits.as_str());
    proof {
        assert(k@ =~= key_seq(gw@, n));
    }
    k
}

} // verus!
