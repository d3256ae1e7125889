//! Decimal and hexadecimal rendering and parsing of unsigned integers, as
//! they appear on the wire in `Content-Length` values, status codes and
//! chunk-size lines.

use vstd::prelude::*;

verus! {

/// The decimal digit characters of `n`, most significant first.
pub open spec fn spec_dec_digits(n: nat) -> Seq<u8>
    decreases n,
{
    if n < 10 {
        seq![(48 + n) as u8]
    } else {
        spec_dec_digits(n / 10) + seq![(48 + n % 10) as u8]
    }
}

/// The uppercase hexadecimal digit characters of `n`, most significant first.
pub open spec fn spec_hex_digits(n: nat) -> Seq<u8>
    decreases n,
{
    if n < 16 {
        seq![spec_hex_digit(n)]
    } else {
        spec_hex_digits(n / 16) + seq![spec_hex_digit(n % 16)]
    }
}

/// One uppercase hexadecimal digit character for a value below 16.
pub open spec fn spec_hex_digit(d: nat) -> u8 {
    if d < 10 {
        (48 + d) as u8
    } else {
        (55 + d) as u8
    }
}

pub open spec fn spec_is_dec_digit(b: u8) -> bool {
    48 <= b <= 57
}

pub open spec fn spec_is_hex_digit(b: u8) -> bool {
    (48 <= b <= 57) || (65 <= b <= 70) || (97 <= b <= 102)
}

pub open spec fn spec_all_dec_digits(s: Seq<u8>) -> bool {
    forall|i: int| 0 <= i < s.len() ==> spec_is_dec_digit(#[trigger] s[i])
}

pub open spec fn spec_all_hex_digits(s: Seq<u8>) -> bool {
    forall|i: int| 0 <= i < s.len() ==> spec_is_hex_digit(#[trigger] s[i])
}

/// The numeric value of one hexadecimal digit character (either case).
pub open spec fn spec_hex_digit_val(b: u8) -> nat {
    if 48 <= b <= 57 {
        (b - 48) as nat
    } else if 65 <= b <= 70 {
        (b - 55) as nat
    } else {
        (b - 87) as nat
    }
}

/// The value of a decimal digit string, read most significant first.
pub open spec fn spec_dec_val(s: Seq<u8>) -> nat
    decreases s.len(),
{
    if s.len() == 0 {
        0
    } else {
        spec_dec_val(s.drop_last()) * 10 + if spec_is_dec_digit(s.last()) {
            (s.last() - 48) as nat
        } else {
            0
        }
    }
}

/// The value of a hexadecimal digit string, read most significant first.
pub open spec fn spec_hex_val(s: Seq<u8>) -> nat
    decreases s.len(),
{
    if s.len() == 0 {
        0
    } else {
        spec_hex_val(s.drop_last()) * 16 + if spec_is_hex_digit(s.last()) {
            spec_hex_digit_val(s.last())
        } else {
            0
        }
    }
}

/// Append the decimal digits of `n` to `out`.
pub fn push_dec_digits(out: &mut Vec<u8>, n: u64)
    ensures
        final(out)@ == old(out)@ + spec_dec_digits(n as nat),
    decreases n,
{
    if n < 10 {
        out.push(48 + n as u8);
    } else {
        push_dec_digits(out, n / 10);
        out.push(48 + (n % 10) as u8);
        proof {
            assert(old(out)@ + spec_dec_digits((n / 10) as nat) + seq![(48 + n % 10) as u8]
                =~= old(out)@ + (spec_dec_digits((n / 10) as nat) + seq![(48 + n % 10) as u8]));
        }
    }
}

/// The decimal digits of `n` as a fresh buffer.
pub fn render_dec(n: u64) -> (r: Vec<u8>)
    ensures
        r@ == spec_dec_digits(n as nat),
{
    let mut out: Vec<u8> = Vec::new();
    push_dec_digits(&mut out, n);
    proof {
        assert(Seq::<u8>::empty() + spec_dec_digits(n as nat) =~= spec_dec_digits(n as nat));
    }
    out
}

/// Append the uppercase hexadecimal digits of `n` to `out`.
pub fn push_hex_digits(out: &mut Vec<u8>, n: u64)
    ensures
        final(out)@ == old(out)@ + spec_hex_digits(n as nat),
    decreases n,
{
    if n < 16 {
        if n < 10 {
            out.push(48 + n as u8);
        } else {
            out.push(55 + n as u8);
        }
    } else {
        push_hex_digits(out, n / 16);
        let d: u64 = n % 16;
        if d < 10 {
            out.push(48 + d as u8);
        } else {
            out.push(55 + d as u8);
        }
        proof {
            assert(old(out)@ + spec_hex_digits((n / 16) as nat) + seq![spec_hex_digit(
                (n % 16) as nat,
            )] =~= old(out)@ + (spec_hex_digits((n / 16) as nat) + seq![spec_hex_digit(
                (n % 16) as nat,
            )]));
        }
    }
}

/// Every character that `spec_dec_digits` produces is a decimal digit.
pub proof fn lemma_dec_digits_are_digits(n: nat)
    ensures
        spec_all_dec_digits(spec_dec_digits(n)),
        spec_dec_digits(n).len() >= 1,
    decreases n,
{
    if n >= 10 {
        lemma_dec_digits_are_digits(n / 10);
    }
}

/// Every character that `spec_hex_digits` produces is a hexadecimal digit.
pub proof fn lemma_hex_digits_are_digits(n: nat)
    ensures
        spec_all_hex_digits(spec_hex_digits(n)),
        spec_hex_digits(n).len() >= 1,
    decreases n,
{
    if n >= 16 {
        lemma_hex_digits_are_digits(n / 16);
    }
}

/// Reading back the decimal digits of `n` yields `n`.
pub proof fn lemma_dec_round_trip(n: nat)
    ensures
        spec_dec_val(spec_dec_digits(n)) == n,
    decreases n,
{
    if n < 10 {
        assert(spec_dec_digits(n) == seq![(48 + n) as u8]);
        assert(spec_dec_digits(n).drop_last() =~= Seq::<u8>::empty());
        assert(spec_dec_digits(n).last() == (48 + n) as u8);
        assert(spec_dec_val(spec_dec_digits(n)) == spec_dec_val(Seq::<u8>::empty()) * 10 + n);
    } else {
        lemma_dec_round_trip(n / 10);
        lemma_dec_digits_are_digits(n / 10);
        assert(spec_dec_digits(n) == spec_dec_digits(n / 10) + seq![(48 + n % 10) as u8]);
        assert(spec_dec_digits(n).drop_last() =~= spec_dec_digits(n / 10));
        assert(spec_dec_digits(n).last() == (48 + n % 10) as u8);
        assert(spec_dec_val(spec_dec_digits(n)) == (n / 10) * 10 + n % 10);
    }
}

/// Reading back the hexadecimal digits of `n` yields `n`.
pub proof fn lemma_hex_round_trip(n: nat)
    ensures
        spec_hex_val(spec_hex_digits(n)) == n,
    decreases n,
{
    if n < 16 {
        assert(spec_hex_digits(n) == seq![spec_hex_digit(n)]);
        assert(spec_hex_digits(n).drop_last() =~= Seq::<u8>::empty());
        assert(spec_hex_digits(n).last() == spec_hex_digit(n));
        assert(spec_hex_digit_val(spec_hex_digit(n)) == n);
        assert(spec_hex_val(spec_hex_digits(n)) == spec_hex_val(Seq::<u8>::empty()) * 16 + n);
    } else {
        lemma_hex_round_trip(n / 16);
        lemma_hex_digits_are_digits(n / 16);
        assert(spec_hex_digits(n) == spec_hex_digits(n / 16) + seq![spec_hex_digit(n % 16)]);
        assert(spec_hex_digits(n).drop_last() =~= spec_hex_digits(n / 16));
        assert(spec_hex_digits(n).last() == spec_hex_digit(n % 16));
        assert(spec_hex_digit_val(spec_hex_digit(n % 16)) == n % 16);
        assert(spec_hex_val(spec_hex_digits(n)) == (n / 16) * 16 + n % 16);
    }
}

/// A decimal digit string values at least its every prefix.
proof fn lemma_dec_val_prefix_le(s: Seq<u8>, i: int)
    requires
        0 <= i <= s.len(),
    ensures
        spec_dec_val(s.take(i)) <= spec_dec_val(s),
    decreases s.len() - i,
{
    if i < s.len() {
        lemma_dec_val_prefix_le(s, i + 1);
        assert(s.take(i + 1).drop_last() =~= s.take(i));
        assert(spec_dec_val(s.take(i)) <= spec_dec_val(s.take(i + 1)));
    } else {
        assert(s.take(i) =~= s);
    }
}

/// A hexadecimal digit string values at least its every prefix.
proof fn lemma_hex_val_prefix_le(s: Seq<u8>, i: int)
    requires
        0 <= i <= s.len(),
    ensures
        spec_hex_val(s.take(i)) <= spec_hex_val(s),
    decreases s.len() - i,
{
    if i < s.len() {
        lemma_hex_val_prefix_le(s, i + 1);
        assert(s.take(i + 1).drop_last() =~= s.take(i));
        assert(spec_hex_val(s.take(i)) <= spec_hex_val(s.take(i + 1)));
    } else {
        assert(s.take(i) =~= s);
    }
}

/// Parse a decimal digit string into a `u64`.
///
/// Returns the value exactly when the input is a nonempty, all-digit string
/// whose value fits in a `u64`; returns `None` otherwise.
pub fn parse_dec(s: &[u8]) -> (r: Option<u64>)
    ensures
        r matches Some(v) ==> s@.len() >= 1 && spec_all_dec_digits(s@) && v == spec_dec_val(s@),
        (s@.len() >= 1 && spec_all_dec_digits(s@) && spec_dec_val(s@) <= u64::MAX) ==> r == Some(
            spec_dec_val(s@) as u64,
        ),
{
    if s.len() == 0 {
        return None;
    }
    let mut acc: u64 = 0;
    let mut i: usize = 0;
    while i < s.len()
        invariant
            0 <= i <= s@.len(),
            spec_all_dec_digits(s@.take(i as int)),
            acc == spec_dec_val(s@.take(i as int)),
        decreases s@.len() - i,
    {
        let b = s[i];
        if !(48 <= b && b <= 57) {
            return None;
        }
        let d: u64 = (b - 48) as u64;
        if acc > (u64::MAX - d) / 10 {
            proof {
                assert(s@.take(i + 1).drop_last() =~= s@.take(i as int));
                assert(spec_dec_val(s@.take(i + 1)) == acc * 10 + d);
                assert(acc * 10 + d > u64::MAX) by {
                    assert(acc >= (u64::MAX - d) / 10 + 1);
                    assert(((u64::MAX - d) / 10 + 1) * 10 == ((u64::MAX - d) / 10) * 10 + 10);
                    assert(((u64::MAX - d) / 10) * 10 + 10 > u64::MAX - d) by (nonlinear_arith)
                        requires d <= 9;
                    assert(acc * 10 >= ((u64::MAX - d) / 10 + 1) * 10) by (nonlinear_arith)
                        requires acc >= (u64::MAX - d) / 10 + 1;
                }
                lemma_dec_val_prefix_le(s@, i + 1);
            }
            return None;
        }
        proof {
            assert(acc * 10 + d <= u64::MAX) by {
                assert(acc * 10 <= ((u64::MAX - d) / 10) * 10) by (nonlinear_arith)
                    requires acc <= (u64::MAX - d) / 10;
                assert(((u64::MAX - d) / 10) * 10 <= u64::MAX - d);
            }
            assert(s@.take(i + 1).drop_last() =~= s@.take(i as int));
        }
        acc = acc * 10 + d;
        i = i + 1;
    }
    proof {
        assert(s@.take(i as int) =~= s@);
    }
    Some(acc)
}

/// Parse a hexadecimal digit string (either letter case) into a `u64`.
///
/// Returns the value exactly when the input is a nonempty, all-hex-digit
/// string whose value fits in a `u64`; returns `None` otherwise.
pub fn parse_hex(s: &[u8]) -> (r: Option<u64>)
    ensures
        r matches Some(v) ==> s@.len() >= 1 && spec_all_hex_digits(s@) && v == spec_hex_val(s@),
        (s@.len() >= 1 && spec_all_hex_digits(s@) && spec_hex_val(s@) <= u64::MAX) ==> r == Some(
            spec_hex_val(s@) as u64,
        ),
{
    if s.len() == 0 {
        return None;
    }
    let mut acc: u64 = 0;
    let mut i: usize = 0;
    while i < s.len()
        invariant
            0 <= i <= s@.len(),
            spec_all_hex_digits(s@.take(i as int)),
            acc == spec_hex_val(s@.take(i as int)),
        decreases s@.len() - i,
    {
        let b = s[i];
        let d: u64;
        if 48 <= b && b <= 57 {
            d = (b - 48) as u64;
        } else if 65 <= b && b <= 70 {
            d = (b - 55) as u64;
        } else if 97 <= b && b <= 102 {
            d = (b - 87) as u64;
        } else {
            return None;
        }
        if acc > (u64::MAX - d) / 16 {
            proof {
                assert(s@.take(i + 1).drop_last() =~= s@.take(i as int));
                assert(spec_hex_val(s@.take(i + 1)) == acc * 16 + d);
                assert(acc * 16 + d > u64::MAX) by {
                    assert(acc >= (u64::MAX - d) / 16 + 1);
                    assert(((u64::MAX - d) / 16 + 1) * 16 == ((u64::MAX - d) / 16) * 16 + 16);
                    assert(((u64::MAX - d) / 16) * 16 + 16 > u64::MAX - d) by (nonlinear_arith)
                        requires d <= 15;
                    assert(acc * 16 >= ((u64::MAX - d) / 16 + 1) * 16) by (nonlinear_arith)
                        requires acc >= (u64::MAX - d) / 16 + 1;
                }
                lemma_hex_val_prefix_le(s@, i + 1);
            }
            return None;
        }
        proof {
            assert(acc * 16 + d <= u64::MAX) by {
                assert(acc * 16 <= ((u64::MAX - d) / 16) * 16) by (nonlinear_arith)
                    requires acc <= (u64::MAX - d) / 16;
                assert(((u64::MAX - d) / 16) * 16 <= u64::MAX - d);
            }
            assert(s@.take(i + 1).drop_last() =~= s@.take(i as int));
        }
        acc = acc * 16 + d;
        i = i + 1;
    }
    proof {
        assert(s@.take(i as int) =~= s@);
    }
    Some(acc)
}

} // verus!
