//! Signed decimal text: the form in which the protocol writes every integer
//! and every length.
use vstd::prelude::*;

verus! {

/// The byte `-`.
pub const MINUS: u8 = 45;

/// The byte `0`.
pub const ZERO: u8 = 48;

/// Whether `b` is one of the bytes `0` to `9`.
pub open spec fn is_digit(b: u8) -> bool {
    48 <= b <= 57
}

/// Whether every byte of `t` is a digit.
pub open spec fn all_digits(t: Seq<u8>) -> bool {
    forall|i: int| 0 <= i < t.len() ==> is_digit(#[trigger] t[i])
}

/// The digits of `n`, most significant first, without leading zeros.
pub open spec fn digits(n: nat) -> Seq<u8>
    decreases n,
{
    if n < 10 {
        seq![(48 + n) as u8]
    } else {
        digits(n / 10).push((48 + n % 10) as u8)
    }
}

/// The decimal text of `n`: a `-` for a negative number, then its digits.
pub open spec fn decimal(n: int) -> Seq<u8> {
    if n < 0 {
        seq![45u8] + digits((-n) as nat)
    } else {
        digits(n as nat)
    }
}

/// The number that a run of digits denotes; leading zeros count for nothing.
pub open spec fn digits_value(t: Seq<u8>) -> nat
    decreases t.len(),
{
    if t.len() == 0 {
        0
    } else {
        (digits_value(t.drop_last()) * 10 + (t.last() - 48)) as nat
    }
}

/// The number that a signed decimal text denotes: an optional `-`, then at
/// least one digit and nothing else.
pub open spec fn parse_decimal(t: Seq<u8>) -> Option<int> {
    if t.len() >= 1 && t[0] == 45 {
        let m = t.skip(1);
        if m.len() >= 1 && all_digits(m) {
            Some(-(digits_value(m) as int))
        } else {
            None
        }
    } else if t.len() >= 1 && all_digits(t) {
        Some(digits_value(t) as int)
    } else {
        None
    }
}

/// As [`parse_decimal`], for the numbers that an `i64` holds.
pub open spec fn parse_i64(t: Seq<u8>) -> Option<i64> {
    match parse_decimal(t) {
        Some(v) => if i64::MIN <= v <= i64::MAX {
            Some(v as i64)
        } else {
            None
        },
        None => None,
    }
}

/// The digits of a number are digits, at least one, and denote that number.
pub proof fn lemma_digits(n: nat)
    ensures
        digits(n).len() >= 1,
        all_digits(digits(n)),
        digits_value(digits(n)) == n,
    decreases n,
{
    if n < 10 {
        let d = digits(n);
        assert(d.drop_last() =~= Seq::<u8>::empty());
        assert(digits_value(d.drop_last()) == 0);
    } else {
        lemma_digits(n / 10);
        let d = digits(n);
        assert(d.drop_last() =~= digits(n / 10));
        assert(d.last() == (48 + n % 10) as u8);
    }
}

/// Reading the decimal text of a number gives the number back.
pub proof fn lemma_decimal_round_trip(n: int)
    ensures
        parse_decimal(decimal(n)) == Some(n),
        decimal(n).len() >= 1,
        forall|i: int| 0 <= i < decimal(n).len() ==> (#[trigger] decimal(n)[i] == 45 || is_digit(decimal(n)[i])),
{
    if n < 0 {
        lemma_digits((-n) as nat);
        assert(decimal(n).skip(1) =~= digits((-n) as nat));
    } else {
        lemma_digits(n as nat);
    }
}

/// A run of digits denotes at least what any of its prefixes denotes.
pub proof fn lemma_digits_value_grows(t: Seq<u8>, k: int)
    requires
        all_digits(t),
        0 <= k <= t.len(),
    ensures
        digits_value(t.subrange(0, k)) <= digits_value(t),
    decreases t.len() - k,
{
    if k == t.len() {
        assert(t.subrange(0, k) =~= t);
    } else {
        let p = t.subrange(0, k + 1);
        assert(p.drop_last() =~= t.subrange(0, k));
        assert(is_digit(p.last()));
        lemma_digits_value_grows(t, k + 1);
    }
}

/// Appends the digits of `n` to `dst`.
pub fn push_digits(n: u64, dst: &mut Vec<u8>)
    ensures
        final(dst)@ == old(dst)@ + digits(n as nat),
    decreases n,
{
    if n >= 10 {
        push_digits(n / 10, dst);
    }
    let d: u8 = (n % 10) as u8;
    dst.push(ZERO + d);
    assert(final(dst)@ =~= old(dst)@ + digits(n as nat));
}

/// Appends the decimal text of `n` to `dst`.
pub fn push_decimal(n: i64, dst: &mut Vec<u8>)
    ensures
        final(dst)@ == old(dst)@ + decimal(n as int),
{
    if n < 0 {
        dst.push(MINUS);
        let m: u64 = ((-(n + 1)) as u64) + 1;
        push_digits(m, dst);
        assert(final(dst)@ =~= old(dst)@ + decimal(n as int));
    } else {
        push_digits(n as u64, dst);
    }
}

/// Appends the decimal text of a length to `dst`.
pub fn push_length(n: usize, dst: &mut Vec<u8>)
    ensures
        final(dst)@ == old(dst)@ + decimal(n as int),
{
    push_digits(n as u64, dst);
}

/// Reads the signed decimal text in `buf[from..to]`.
pub fn read_i64(buf: &Vec<u8>, from: usize, to: usize) -> (r: Option<i64>)
    requires
        from <= to <= buf.len(),
    ensures
        r == parse_i64(buf@.subrange(from as int, to as int)),
{
    let ghost t = buf@.subrange(from as int, to as int);
    if from == to {
        return None;
    }
    let negative: bool = buf[from] == MINUS;
    let start: usize = if negative { from + 1 } else { from };
    if start == to {
        assert(t.skip(1).len() == 0);
        return None;
    }
    let ghost m = buf@.subrange(start as int, to as int);
    proof {
        if negative {
            assert(t[0] == 45);
            assert(t.skip(1) =~= m);
        } else {
            assert(t =~= m);
        }
    }
    // the largest magnitude that fits: one more below zero than above
    let limit: u128 = if negative { 9223372036854775808 } else { 9223372036854775807 };
    let mut acc: u128 = 0;
    let mut i: usize = start;
    while i < to
        invariant
            start <= i <= to <= buf.len(),
            m == buf@.subrange(start as int, to as int),
            t == buf@.subrange(from as int, to as int),
            t.len() >= 1,
            m.len() >= 1,
            negative == (t[0] == 45),
            m == if negative { t.skip(1) } else { t },
            limit == if negative { 9223372036854775808u128 } else { 9223372036854775807u128 },
            all_digits(m.subrange(0, i - start)),
            acc == digits_value(m.subrange(0, i - start)),
            acc <= limit,
        decreases to - i,
    {
        let b: u8 = buf[i];
        if b < 48 || b > 57 {
            proof {
                assert(m[i - start] == b);
                assert(!all_digits(m));
            }
            return None;
        }
        let ghost before = m.subrange(0, i - start);
        let ghost after = m.subrange(0, i - start + 1);
        acc = acc * 10 + (b - ZERO) as u128;
        proof {
            assert(after.drop_last() =~= before);
            assert(after.last() == b);
            assert(acc == digits_value(after));
            assert forall|j: int| 0 <= j < after.len() implies is_digit(#[trigger] after[j]) by {
                if j < before.len() {
                    assert(before[j] == after[j]);
                }
            }
        }
        if acc > limit {
            // no later digit brings the number back into range; whether the
            // rest is digits or not, the text denotes no `i64`
            proof {
                if all_digits(m) {
                    lemma_digits_value_grows(m, i - start + 1);
                }
            }
            return None;
        }
        i += 1;
    }
    proof {
        assert(m.subrange(0, i - start) =~= m);
    }
    if negative {
        if acc == 9223372036854775808 {
            Some(i64::MIN)
        } else {
            Some(-(acc as i64))
        }
    } else {
        Some(acc as i64)
    }
}

} // verus!
