//! Decimal text for 64-bit integers, as the wire format writes and reads it.

use vstd::prelude::*;

verus! {

/// ASCII digit bytes.
pub open spec fn is_digit_byte(b: u8) -> bool {
    48 <= b <= 57
}

/// The digit byte for a value below ten.
pub open spec fn digit_byte(d: int) -> u8
    recommends
        0 <= d < 10,
{
    (48 + d) as u8
}

/// The decimal digits of a non-negative number, most significant first.
pub open spec fn dec_digits(n: int) -> Seq<u8>
    recommends
        n >= 0,
    decreases n,
{
    if n < 10 {
        seq![digit_byte(n)]
    } else {
        dec_digits(n / 10).push(digit_byte(n % 10))
    }
}

/// The decimal form of an integer: a minus sign for negative numbers,
/// then the digits of its magnitude.
pub open spec fn dec_int(n: int) -> Seq<u8> {
    if n < 0 {
        seq![45u8] + dec_digits(-n)
    } else {
        dec_digits(n)
    }
}

pub open spec fn all_digits(s: Seq<u8>) -> bool {
    forall|i: int| 0 <= i < s.len() ==> is_digit_byte(#[trigger] s[i])
}

/// The value of a digit string, read in base ten.
pub open spec fn digits_val(s: Seq<u8>) -> int
    decreases s.len(),
{
    if s.len() == 0 {
        0
    } else {
        digits_val(s.drop_last()) * 10 + (s.last() - 48)
    }
}

/// How a decimal byte string parses as a signed 64-bit integer: an
/// optional sign, then one or more digits, and a value within range.
pub open spec fn parse_decimal(s: Seq<u8>) -> Option<int> {
    let digs = if s.len() > 0 && (s[0] == 45 || s[0] == 43) {
        s.drop_first()
    } else {
        s
    };
    let neg = s.len() > 0 && s[0] == 45;
    if digs.len() == 0 || !all_digits(digs) {
        None
    } else {
        let v = if neg {
            -digits_val(digs)
        } else {
            digits_val(digs)
        };
        if i64::MIN <= v <= i64::MAX {
            Some(v)
        } else {
            None
        }
    }
}

pub proof fn lemma_dec_digits_are_digits(n: int)
    requires
        n >= 0,
    ensures
        all_digits(dec_digits(n)),
        dec_digits(n).len() >= 1,
        is_digit_byte(dec_digits(n)[0]),
    decreases n,
{
    if n >= 10 {
        lemma_dec_digits_are_digits(n / 10);
    }
}

pub proof fn lemma_digits_val_of_dec_digits(n: int)
    requires
        n >= 0,
    ensures
        digits_val(dec_digits(n)) == n,
    decreases n,
{
    if n < 10 {
        assert(digits_val(seq![digit_byte(n)]) == n) by {
            assert(seq![digit_byte(n)].drop_last() =~= Seq::<u8>::empty());
            assert(digits_val(Seq::<u8>::empty()) == 0);
            assert(seq![digit_byte(n)].last() == digit_byte(n));
            assert(digit_byte(n) - 48 == n);
        }
    } else {
        lemma_digits_val_of_dec_digits(n / 10);
        let s = dec_digits(n / 10).push(digit_byte(n % 10));
        assert(s.drop_last() =~= dec_digits(n / 10));
        assert(s.last() == digit_byte(n % 10));
    }
}

pub proof fn lemma_dec_int_parses_back(n: int)
    requires
        i64::MIN <= n <= i64::MAX,
    ensures
        parse_decimal(dec_int(n)) == Some(n),
{
    if n >= 0 {
        lemma_dec_digits_are_digits(n);
        lemma_digits_val_of_dec_digits(n);
        let s = dec_int(n);
        assert(s == dec_digits(n));
        assert(s[0] != 45 && s[0] != 43);
    } else {
        lemma_dec_digits_are_digits(-n);
        lemma_digits_val_of_dec_digits(-n);
        let s = dec_int(n);
        assert(s[0] == 45);
        assert(s.drop_first() =~= dec_digits(-n));
    }
}

pub proof fn lemma_digits_val_nonneg(s: Seq<u8>)
    requires
        all_digits(s),
    ensures
        digits_val(s) >= 0,
    decreases s.len(),
{
    if s.len() > 0 {
        assert(all_digits(s.drop_last())) by {
            assert(forall|i: int|
                0 <= i < s.len() - 1 ==> #[trigger] s.drop_last()[i] == s[i]);
        }
        lemma_digits_val_nonneg(s.drop_last());
    }
}

/// A digit string is worth at least any of its prefixes.
pub proof fn lemma_digits_val_prefix_le(s: Seq<u8>, k: int)
    requires
        all_digits(s),
        0 <= k <= s.len(),
    ensures
        digits_val(s.take(k)) <= digits_val(s),
    decreases s.len() - k,
{
    if k < s.len() {
        let t = s.take(k + 1);
        assert(t.drop_last() =~= s.take(k));
        assert(all_digits(s.take(k))) by {
            assert(forall|i: int| 0 <= i < k ==> #[trigger] s.take(k)[i] == s[i]);
        }
        lemma_digits_val_nonneg(s.take(k));
        assert(digits_val(t) == digits_val(s.take(k)) * 10 + (s[k] - 48));
        assert(digits_val(s.take(k)) * 10 >= digits_val(s.take(k)));
        lemma_digits_val_prefix_le(s, k + 1);
    } else {
        assert(s.take(k) =~= s);
    }
}

/// Write the decimal digits of `n` onto the end of a byte buffer.
pub fn push_decimal_u64(out: &mut Vec<u8>, n: u64)
    ensures
        final(out)@ == old(out)@ + dec_digits(n as int),
    decreases n,
{
    if n >= 10 {
        push_decimal_u64(out, n / 10);
        out.push(48 + (n % 10) as u8);
        proof {
            assert(out@ =~= old(out)@ + dec_digits(n as int));
        }
    } else {
        out.push(48 + n as u8);
        proof {
            assert(out@ =~= old(out)@ + dec_digits(n as int));
        }
    }
}

/// Write the decimal form of a signed number onto the end of a byte buffer.
pub fn push_decimal_i64(out: &mut Vec<u8>, n: i64)
    ensures
        final(out)@ == old(out)@ + dec_int(n as int),
{
    if n >= 0 {
        push_decimal_u64(out, n as u64);
    } else {
        out.push(45);
        let mag: u64 = (-(n as i128)) as u64;
        push_decimal_u64(out, mag);
        proof {
            assert(out@ =~= old(out)@ + dec_int(n as int));
        }
    }
}

/// Read the byte range `[start, end)` of `input` as a decimal signed
/// 64-bit integer, exactly as [`parse_decimal`] describes.
pub fn parse_decimal_bytes(input: &[u8], start: usize, end: usize) -> (r: Option<i64>)
    requires
        start <= end <= input@.len(),
    ensures
        match r {
            Some(v) => parse_decimal(input@.subrange(start as int, end as int)) == Some(v as int),
            None => parse_decimal(input@.subrange(start as int, end as int)) is None,
        },
{
    let ghost s = input@.subrange(start as int, end as int);
    if start == end {
        return None;
    }
    proof {
        assert(s.len() == end - start);
        assert(s[0] == input@[start as int]);
    }
    let first = input[start];
    let neg = first == 45;
    let digs_start: usize = if first == 45 || first == 43 {
        start + 1
    } else {
        start
    };
    let ghost digs = if first == 45 || first == 43 {
        s.drop_first()
    } else {
        s
    };
    proof {
        assert(digs =~= input@.subrange(digs_start as int, end as int));
    }
    if digs_start == end {
        return None;
    }
    let limit: u64 = if neg {
        9223372036854775808
    } else {
        9223372036854775807
    };
    let mut acc: u64 = 0;
    let mut i: usize = digs_start;
    while i < end
        invariant
            start <= digs_start <= i <= end <= input@.len(),
            digs_start - start <= 1,
            s == input@.subrange(start as int, end as int),
            s.len() == end - start > 0,
            s[0] == input@[start as int],
            neg == (s[0] == 45),
            digs == (if s[0] == 45 || s[0] == 43 {
                s.drop_first()
            } else {
                s
            }),
            digs.len() > 0,
            digs =~= input@.subrange(digs_start as int, end as int),
            all_digits(digs.take(i - digs_start)),
            acc == digits_val(digs.take(i - digs_start)),
            acc <= limit,
            limit == if neg { 9223372036854775808u64 } else { 9223372036854775807u64 },
        decreases end - i,
    {
        let b = input[i];
        if b < 48 || b > 57 {
            proof {
                assert(digs[i - digs_start] == b);
                assert(!all_digits(digs));
            }
            return None;
        }
        let d = (b - 48) as u64;
        if acc > (limit - d) / 10 {
            // The digits read so far already put the value out of range.
            proof {
                let k = i - digs_start;
                assert(digs.take(k + 1).drop_last() =~= digs.take(k));
                assert(digs.take(k + 1).last() == digs[k]);
                assert(digits_val(digs.take(k + 1)) == acc * 10 + d);
                assert(acc * 10 + d > limit) by (nonlinear_arith)
                    requires
                        acc > (limit - d) / 10,
                        d <= 9,
                        limit >= 9,
                ;
                if all_digits(digs) {
                    assert(all_digits(digs.take(k + 1))) by {
                        assert(forall|j: int|
                            0 <= j < k + 1 ==> #[trigger] digs.take(k + 1)[j] == digs[j]);
                    }
                    lemma_digits_val_prefix_le(digs, k + 1);
                    assert(digits_val(digs) > limit);
                }
            }
            return None;
        }
        proof {
            let k = i - digs_start;
            assert(digs.take(k + 1).drop_last() =~= digs.take(k));
            assert(digs.take(k + 1).last() == digs[k]);
            assert(acc * 10 + d <= limit) by (nonlinear_arith)
                requires
                    acc <= (limit - d) / 10,
                    d <= limit,
            ;
            assert(all_digits(digs.take(k + 1))) by {
                assert(forall|j: int|
                    0 <= j < k + 1 ==> #[trigger] digs.take(k + 1)[j] == digs[j]);
            }
        }
        acc = acc * 10 + d;
        i = i + 1;
    }
    proof {
        assert(digs.take(end - digs_start) =~= digs);
    }
    if neg {
        Some((-(acc as i128)) as i64)
    } else {
        Some(acc as i64)
    }
}

} // verus!
