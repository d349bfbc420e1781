//! Hex codec of the request boundary.
//!
//! Calculation requests arrive with coordinates and the iteration cap written
//! as hex strings, optionally prefixed `0x`; iteration counts are emitted back
//! as lower-case hex without a prefix. This module parses and emits those
//! strings as byte sequences; the surrounding process converts between
//! `String` and bytes.

use vstd::prelude::*;

verus! {

/// Whether `c` is an ASCII hex digit, either case.
pub open spec fn is_hex_digit(c: u8) -> bool {
    (48 <= c && c <= 57) || (97 <= c && c <= 102) || (65 <= c && c <= 70)
}

/// The value of an ASCII hex digit; 0 on other bytes.
pub open spec fn hex_digit_val(c: u8) -> nat {
    if 48 <= c && c <= 57 {
        (c - 48) as nat
    } else if 97 <= c && c <= 102 {
        (c - 87) as nat
    } else if 65 <= c && c <= 70 {
        (c - 55) as nat
    } else {
        0
    }
}

/// The number a sequence of hex digits denotes, most significant first.
pub open spec fn hex_value(s: Seq<u8>) -> nat
    decreases s.len(),
{
    if s.len() == 0 {
        0
    } else {
        hex_value(s.drop_last()) * 16 + hex_digit_val(s.last())
    }
}

/// Whether every byte of `s` is a hex digit.
pub open spec fn all_hex_digits(s: Seq<u8>) -> bool {
    forall|i: int| 0 <= i < s.len() ==> is_hex_digit(#[trigger] s[i])
}

/// `s` without a leading `0x`, if it has one.
pub open spec fn strip_hex_prefix(s: Seq<u8>) -> Seq<u8> {
    if s.len() >= 2 && s[0] == 48 && s[1] == 120 {
        s.skip(2)
    } else {
        s
    }
}

/// The lower-case digit of a value below 16.
pub open spec fn hex_digit_char(d: nat) -> u8 {
    if d < 10 {
        (48 + d) as u8
    } else {
        (87 + d) as u8
    }
}

/// The canonical lower-case hex form of a number: no prefix, no leading
/// zeros except for the single digit of zero itself.
pub open spec fn hex_repr(n: nat) -> Seq<u8>
    decreases n,
{
    if n < 16 {
        seq![hex_digit_char(n)]
    } else {
        hex_repr(n / 16).push(hex_digit_char(n % 16))
    }
}

/// What parsing an unsigned 64-bit hex string returns: the denoted value,
/// where the digits (after an optional `0x`) are non-empty, well formed and
/// the value fits.
pub open spec fn spec_parse_hex_u64(s: Seq<u8>) -> Option<u64> {
    let t = strip_hex_prefix(s);
    if t.len() > 0 && all_hex_digits(t) && hex_value(t) <= u64::MAX {
        Some(hex_value(t) as u64)
    } else {
        None
    }
}

/// What parsing a signed 128-bit hex string returns. A minus sign may follow
/// the optional `0x`; the magnitude must fit the signed width.
pub open spec fn spec_parse_hex_i128(s: Seq<u8>) -> Option<i128> {
    let t = strip_hex_prefix(s);
    if t.len() > 0 && t[0] == 45 {
        let m = t.skip(1);
        if m.len() > 0 && all_hex_digits(m) && hex_value(m) <= 0x80000000000000000000000000000000 {
            Some((0 - hex_value(m)) as i128)
        } else {
            None
        }
    } else {
        if t.len() > 0 && all_hex_digits(t) && hex_value(t) <= i128::MAX {
            Some(hex_value(t) as i128)
        } else {
            None
        }
    }
}

/// Extending a digit string never lowers its value.
proof fn lemma_hex_value_take_monotone(s: Seq<u8>, i: int, j: int)
    requires
        0 <= i <= j <= s.len(),
    ensures
        hex_value(s.take(i)) <= hex_value(s.take(j)),
    decreases j - i,
{
    if i < j {
        lemma_hex_value_take_monotone(s, i, j - 1);
        assert(s.take(j).drop_last() =~= s.take(j - 1));
        assert(hex_value(s.take(j)) == hex_value(s.take(j - 1)) * 16 + hex_digit_val(s.take(j).last()));
    }
}

/// A whole digit string is worth at least any of its prefixes.
proof fn lemma_hex_value_take_full(s: Seq<u8>, i: int)
    requires
        0 <= i <= s.len(),
    ensures
        hex_value(s.take(i)) <= hex_value(s),
{
    lemma_hex_value_take_monotone(s, i, s.len() as int);
    assert(s.take(s.len() as int) =~= s);
}

/// Parse the digits of `s` from position `from` on as an unsigned hex number
/// of at most 128 bits.
fn parse_hex_digits(s: &[u8], from: usize) -> (r: Option<u128>)
    requires
        from <= s@.len(),
    ensures
        match r {
            Some(v) => {
                &&& s@.len() - from > 0
                &&& all_hex_digits(s@.skip(from as int))
                &&& hex_value(s@.skip(from as int)) == v
            },
            None => {
                let t = s@.skip(from as int);
                t.len() == 0 || !all_hex_digits(t) || hex_value(t) > u128::MAX
            },
        },
{
    let ghost t = s@.skip(from as int);
    let n = s.len();
    if from == n {
        return None;
    }
    let mut acc: u128 = 0;
    let mut i: usize = from;
    while i < n
        invariant
            from <= i <= n,
            n == s@.len(),
            t == s@.skip(from as int),
            all_hex_digits(t.take(i - from)),
            acc == hex_value(t.take(i - from)),
        decreases n - i,
    {
        let c = s[i];
        let d: u128 = if 48 <= c && c <= 57 {
            (c - 48) as u128
        } else if 97 <= c && c <= 102 {
            (c - 87) as u128
        } else if 65 <= c && c <= 70 {
            (c - 55) as u128
        } else {
            assert(t[i - from] == c && !is_hex_digit(c));
            return None;
        };
        if acc > (u128::MAX - d) / 16 {
            proof {
                assert(t.take(i - from + 1).drop_last() =~= t.take(i - from));
                assert(t.take(i - from + 1).last() == t[i - from]);
                assert(hex_value(t.take(i - from + 1)) == acc * 16 + d);
                assert(acc * 16 + d > u128::MAX) by (nonlinear_arith)
                    requires
                        acc > (u128::MAX - d) / 16,
                        d <= 15,
                ;
                lemma_hex_value_take_monotone(t, i - from + 1, t.len() as int);
                assert(t.take(t.len() as int) =~= t);
            }
            return None;
        }
        proof {
            assert(acc * 16 + d <= u128::MAX) by (nonlinear_arith)
                requires
                    acc <= (u128::MAX - d) / 16,
                    d <= 15,
            ;
            assert(t.take(i - from + 1).drop_last() =~= t.take(i - from));
            assert(t.take(i - from + 1).last() == t[i - from]);
        }
        acc = acc * 16 + d;
        i += 1;
    }
    proof {
        assert(t.take(n - from) =~= t);
    }
    Some(acc)
}

/// Parse an unsigned 64-bit hex string: digits after an optional `0x`.
pub fn parse_hex_u64(s: &[u8]) -> (r: Option<u64>)
    ensures
        r == spec_parse_hex_u64(s@),
{
    let from: usize = if s.len() >= 2 && s[0] == 48 && s[1] == 120 {
        2
    } else {
        0
    };
    proof {
        assert(strip_hex_prefix(s@) == s@.skip(from as int)) by {
            if !(s@.len() >= 2 && s@[0] == 48 && s@[1] == 120) {
                assert(s@.skip(0) =~= s@);
            }
        }
    }
    match parse_hex_digits(s, from) {
        Some(v) => {
            if v <= u64::MAX as u128 {
                Some(v as u64)
            } else {
                None
            }
        },
        None => {
            proof {
                let t = strip_hex_prefix(s@);
                if t.len() > 0 && all_hex_digits(t) && hex_value(t) <= u64::MAX {
                    assert(hex_value(t) <= u128::MAX);
                }
            }
            None
        },
    }
}

/// Parse a signed 128-bit hex string: an optional minus sign after the
/// optional `0x`, then digits.
pub fn parse_hex_i128(s: &[u8]) -> (r: Option<i128>)
    ensures
        r == spec_parse_hex_i128(s@),
{
    let from: usize = if s.len() >= 2 && s[0] == 48 && s[1] == 120 {
        2
    } else {
        0
    };
    proof {
        assert(strip_hex_prefix(s@) == s@.skip(from as int)) by {
            if !(s@.len() >= 2 && s@[0] == 48 && s@[1] == 120) {
                assert(s@.skip(0) =~= s@);
            }
        }
    }
    let ghost t = strip_hex_prefix(s@);
    if from < s.len() && s[from] == 45 {
        proof {
            assert(t.skip(1) =~= s@.skip(from + 1));
        }
        match parse_hex_digits(s, from + 1) {
            Some(v) => {
                if v <= 0x80000000000000000000000000000000u128 {
                    if v == 0x80000000000000000000000000000000u128 {
                        Some(i128::MIN)
                    } else {
                        Some(-(v as i128))
                    }
                } else {
                    None
                }
            },
            None => {
                proof {
                    let m = t.skip(1);
                    if m.len() > 0 && all_hex_digits(m)
                        && hex_value(m) <= 0x80000000000000000000000000000000 {
                        assert(hex_value(m) <= u128::MAX);
                    }
                }
                None
            },
        }
    } else {
        proof {
            if t.len() > 0 {
                assert(t[0] == s@.skip(from as int)[0]);
            }
        }
        match parse_hex_digits(s, from) {
            Some(v) => {
                if v <= i128::MAX as u128 {
                    Some(v as i128)
                } else {
                    None
                }
            },
            None => {
                proof {
                    if t.len() > 0 && all_hex_digits(t) && hex_value(t) <= i128::MAX {
                        assert(hex_value(t) <= u128::MAX);
                    }
                }
                None
            },
        }
    }
}

/// Emit a value as canonical lower-case hex, no prefix, no leading zeros.
pub fn to_hex_u64(v: u64) -> (r: Vec<u8>)
    ensures
        r@ == hex_repr(v as nat),
    decreases v,
{
    if v < 16 {
        let d: u8 = if v < 10 {
            48 + (v as u8)
        } else {
            87 + (v as u8)
        };
        let mut r: Vec<u8> = Vec::new();
        r.push(d);
        proof {
            assert(r@ =~= hex_repr(v as nat));
        }
        r
    } else {
        let mut r = to_hex_u64(v / 16);
        let m = v % 16;
        let d: u8 = if m < 10 {
            48 + (m as u8)
        } else {
            87 + (m as u8)
        };
        r.push(d);
        proof {
            assert(r@ =~= hex_repr(v as nat));
        }
        r
    }
}

/// The canonical form is made of lower-case hex digits, denotes the number it
/// was made from, and starts with a zero only for the number zero.
pub proof fn lemma_hex_repr_wf(n: nat)
    ensures
        hex_repr(n).len() >= 1,
        all_hex_digits(hex_repr(n)),
        hex_value(hex_repr(n)) == n,
        n > 0 ==> hex_repr(n)[0] != 48,
        forall|i: int| 0 <= i < hex_repr(n).len() ==> !(65 <= #[trigger] hex_repr(n)[i] && hex_repr(n)[i] <= 70),
    decreases n,
{
    if n < 16 {
        assert(hex_repr(n) =~= seq![hex_digit_char(n)]);
        assert(hex_repr(n).drop_last() =~= Seq::<u8>::empty());
        assert(hex_digit_val(hex_digit_char(n)) == n);
        assert(hex_value(hex_repr(n)) == hex_value(hex_repr(n).drop_last()) * 16 + hex_digit_val(hex_digit_char(n)));
    } else {
        lemma_hex_repr_wf(n / 16);
        let r = hex_repr(n);
        assert(r =~= hex_repr(n / 16).push(hex_digit_char(n % 16)));
        assert(r.drop_last() =~= hex_repr(n / 16));
        assert(hex_value(r) == hex_value(hex_repr(n / 16)) * 16 + hex_digit_val(r.last()));
        assert(hex_digit_val(hex_digit_char(n % 16)) == n % 16);
        assert((n / 16) * 16 + n % 16 == n) by (nonlinear_arith);
        assert(forall|i: int| 0 <= i < r.len() - 1 ==> #[trigger] r[i] == hex_repr(n / 16)[i]);
    }
}

/// Round trip from a value: parsing the emitted canonical form gives the
/// value back.
pub proof fn lemma_hex_round_trip_u64(v: u64)
    ensures
        spec_parse_hex_u64(hex_repr(v as nat)) == Some(v),
{
    lemma_hex_repr_wf(v as nat);
    let r = hex_repr(v as nat);
    assert(strip_hex_prefix(r) == r) by {
        if r.len() >= 2 && r[0] == 48 && r[1] == 120 {
            assert(v as nat > 0 || r.len() == 1);
            assert(is_hex_digit(r[1]));
        }
    }
}

/// A nonzero digit somewhere makes the denoted value nonzero.
proof fn lemma_hex_value_nonzero(s: Seq<u8>, i: int)
    requires
        0 <= i < s.len(),
        hex_digit_val(s[i]) > 0,
    ensures
        hex_value(s) > 0,
    decreases s.len(),
{
    if i == s.len() - 1 {
    } else {
        lemma_hex_value_nonzero(s.drop_last(), i);
        assert(hex_value(s) == hex_value(s.drop_last()) * 16 + hex_digit_val(s.last()));
        assert(hex_value(s.drop_last()) * 16 >= 16) by (nonlinear_arith)
            requires
                hex_value(s.drop_last()) >= 1,
        ;
    }
}

/// Round trip from a string: a non-empty lower-case digit string with no
/// leading zero (except the single digit zero) is emitted back unchanged.
pub proof fn lemma_hex_canonical(s: Seq<u8>)
    requires
        s.len() > 0,
        all_hex_digits(s),
        forall|i: int| 0 <= i < s.len() ==> !(65 <= #[trigger] s[i] && s[i] <= 70),
        s[0] != 48 || s.len() == 1,
    ensures
        hex_repr(hex_value(s)) == s,
    decreases s.len(),
{
    if s.len() == 1 {
        let c = s[0];
        assert(hex_value(s) == hex_digit_val(c)) by {
            assert(s.drop_last() =~= Seq::<u8>::empty());
            assert(hex_value(Seq::<u8>::empty()) == 0);
            assert(s.last() == c);
            assert(hex_value(s) == hex_value(s.drop_last()) * 16 + hex_digit_val(s.last()));
        }
        assert(hex_digit_char(hex_digit_val(c)) == c);
        assert(hex_repr(hex_value(s)) =~= s);
    } else {
        let p = s.drop_last();
        let d = s.last();
        let n = hex_value(s);
        assert(n == hex_value(p) * 16 + hex_digit_val(d));
        assert(hex_digit_val(s[0]) > 0) by {
            assert(is_hex_digit(s[0]) && s[0] != 48);
        }
        assert(p[0] == s[0] && p.len() >= 1);
        lemma_hex_value_nonzero(p, 0);
        assert(n >= 16) by (nonlinear_arith)
            requires
                n == hex_value(p) * 16 + hex_digit_val(d),
                hex_value(p) >= 1,
        ;
        assert(n / 16 == hex_value(p) && n % 16 == hex_digit_val(d)) by (nonlinear_arith)
            requires
                n == hex_value(p) * 16 + hex_digit_val(d),
                hex_digit_val(d) < 16,
        ;
        lemma_hex_canonical(p);
        assert(hex_digit_char(hex_digit_val(d)) == d);
        assert(hex_repr(n) =~= s) by {
            assert(hex_repr(n) == hex_repr(n / 16).push(hex_digit_char(n % 16)));
        }
    }
}

} // verus!
