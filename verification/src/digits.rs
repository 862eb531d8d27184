//! Unsigned numbers written as ASCII decimal digits.

use vstd::prelude::*;

verus! {

/// Whether `b` is one of the ASCII digits `0` to `9`.
pub open spec fn is_digit(b: u8) -> bool {
    0x30 <= b <= 0x39
}

/// Whether `s` holds ASCII digits only.
pub open spec fn all_digits(s: Seq<u8>) -> bool {
    forall|i: int| 0 <= i < s.len() ==> is_digit(#[trigger] s[i])
}

/// The number that the digits of `s` write in base ten.
pub open spec fn digits_value(s: Seq<u8>) -> nat
    decreases s.len(),
{
    if s.len() == 0 {
        0
    } else {
        (10 * digits_value(s.drop_last()) + (s.last() - 0x30)) as nat
    }
}

/// `s` without a leading plus sign.
pub open spec fn without_plus(s: Seq<u8>) -> Seq<u8> {
    if s.len() > 0 && s[0] == 0x2B {
        s.skip(1)
    } else {
        s
    }
}

/// The unsigned 32-bit number that `s` writes: an optional plus sign and
/// then one or more digits whose value fits. Anything else is no number.
pub open spec fn parsed_u32(s: Seq<u8>) -> Option<u32> {
    let d = without_plus(s);
    if d.len() > 0 && all_digits(d) && digits_value(d) <= u32::MAX {
        Some(digits_value(d) as u32)
    } else {
        None
    }
}

/// The digits of `n` in base ten, without leading zeros.
pub open spec fn decimal(n: nat) -> Seq<u8>
    decreases n,
{
    if n < 10 {
        seq![(0x30 + n) as u8]
    } else {
        decimal(n / 10).push((0x30 + n % 10) as u8)
    }
}

/// `count` zero digits.
pub open spec fn zeros(count: nat) -> Seq<u8> {
    Seq::new(count, |i: int| 0x30u8)
}

/// The digits of `n` in base ten, with zeros in front up to `width` digits;
/// a number with more digits is written in full.
pub open spec fn zero_padded(n: nat, width: nat) -> Seq<u8> {
    let d = decimal(n);
    if d.len() >= width {
        d
    } else {
        zeros((width - d.len()) as nat) + d
    }
}

/// The value of a prefix of digits is at most the value of the whole.
pub proof fn lemma_prefix_value(s: Seq<u8>, k: int)
    requires
        0 <= k <= s.len(),
        all_digits(s),
    ensures
        digits_value(s.subrange(0, k)) <= digits_value(s),
    decreases s.len(),
{
    if k == s.len() {
        assert(s.subrange(0, k) =~= s);
    } else {
        let t = s.drop_last();
        assert(all_digits(t)) by {
            assert forall|i: int| 0 <= i < t.len() implies is_digit(#[trigger] t[i]) by {
                assert(t[i] == s[i]);
            }
        }
        lemma_prefix_value(t, k);
        assert(t.subrange(0, k) =~= s.subrange(0, k));
        assert(is_digit(s[s.len() - 1]));
    }
}

/// The digits of a number are digits, at least one, and write that number.
pub proof fn lemma_decimal(n: nat)
    ensures
        decimal(n).len() >= 1,
        all_digits(decimal(n)),
        digits_value(decimal(n)) == n,
        decimal(n)[0] != 0x2B,
    decreases n,
{
    if n < 10 {
        let d = decimal(n);
        assert(d.drop_last() =~= Seq::<u8>::empty());
        assert(digits_value(d.drop_last()) == 0);
    } else {
        lemma_decimal(n / 10);
        let p = decimal(n / 10);
        let d = decimal(n);
        assert(d.drop_last() =~= p);
        assert forall|i: int| 0 <= i < d.len() implies is_digit(#[trigger] d[i]) by {
            if i < p.len() {
                assert(d[i] == p[i]);
                assert(is_digit(p[i]));
            }
        }
    }
}

/// A number below ten to the `k` has at most `k` digits.
pub proof fn lemma_decimal_len(n: nat, k: nat, bound: nat)
    requires
        k >= 1,
        bound == vstd::arithmetic::power::pow(10, k),
        n < bound,
    ensures
        decimal(n).len() <= k,
    decreases k,
{
    vstd::arithmetic::power::lemma_pow1(10);
    vstd::arithmetic::power::lemma_pow_adds(10, 1, (k - 1) as nat);
    if n >= 10 {
        if k == 1 {
        } else {
            let b = vstd::arithmetic::power::pow(10, (k - 1) as nat) as nat;
            vstd::arithmetic::power::lemma_pow_positive(10, (k - 1) as nat);
            assert(bound == 10 * b);
            assert(n / 10 < b);
            lemma_decimal_len(n / 10, (k - 1) as nat, b);
        }
    }
}

/// Zeros in front do not change the value of digits.
pub proof fn lemma_zeros_value(count: nat, d: Seq<u8>)
    requires
        all_digits(d),
    ensures
        all_digits(zeros(count) + d),
        digits_value(zeros(count) + d) == digits_value(d),
    decreases d.len(),
{
    let s = zeros(count) + d;
    assert forall|i: int| 0 <= i < s.len() implies is_digit(#[trigger] s[i]) by {
        if i >= count {
            assert(s[i] == d[i - count]);
            assert(is_digit(d[i - count]));
        }
    }
    if d.len() == 0 {
        assert(s =~= zeros(count));
        lemma_zeros_only(count);
    } else {
        let t = d.drop_last();
        assert forall|i: int| 0 <= i < t.len() implies is_digit(#[trigger] t[i]) by {
            assert(t[i] == d[i]);
        }
        lemma_zeros_value(count, t);
        assert(s.drop_last() =~= zeros(count) + t);
        assert(s.last() == d.last());
    }
}

/// Zeros alone write the number zero.
pub proof fn lemma_zeros_only(count: nat)
    ensures
        digits_value(zeros(count)) == 0,
    decreases count,
{
    if count > 0 {
        lemma_zeros_only((count - 1) as nat);
        assert(zeros(count).drop_last() =~= zeros((count - 1) as nat));
    }
}

/// A number written with zeros in front is read back as itself. Where the
/// number is below ten to the `width`, the text has exactly `width` digits.
pub proof fn lemma_zero_padded(n: nat, width: nat)
    requires
        width >= 1,
    ensures
        all_digits(zero_padded(n, width)),
        digits_value(zero_padded(n, width)) == n,
        zero_padded(n, width).len() >= width,
        n < vstd::arithmetic::power::pow(10, width) ==> zero_padded(n, width).len() == width,
        n <= u32::MAX ==> parsed_u32(zero_padded(n, width)) == Some(n as u32),
{
    lemma_decimal(n);
    let d = decimal(n);
    if d.len() < width {
        lemma_zeros_value((width - d.len()) as nat, d);
    }
    if n < vstd::arithmetic::power::pow(10, width) {
        lemma_decimal_len(n, width, vstd::arithmetic::power::pow(10, width) as nat);
    }
    let z = zero_padded(n, width);
    assert(is_digit(z[0]));
    assert(without_plus(z) == z);
}

/// Reads `bytes` as an unsigned number: an optional plus sign followed by
/// one or more ASCII digits. `None` where the text has another shape or the
/// number does not fit in 32 bits.
pub fn parse_u32(bytes: &[u8]) -> (r: Option<u32>)
    ensures
        r == parsed_u32(bytes@),
{
    let n = bytes.len();
    let start: usize = if n > 0 && bytes[0] == 0x2B {
        1
    } else {
        0
    };
    if start == n {
        return None;
    }
    let ghost d = without_plus(bytes@);
    assert(d =~= bytes@.subrange(start as int, n as int));
    let mut acc: u64 = 0;
    let mut i: usize = start;
    while i < n
        invariant
            start <= i <= n,
            n == bytes@.len(),
            d == bytes@.subrange(start as int, n as int),
            d == without_plus(bytes@),
            all_digits(d.subrange(0, i - start)),
            acc == digits_value(d.subrange(0, i - start)),
            acc <= u32::MAX,
        decreases n - i,
    {
        let b = bytes[i];
        if b < 0x30 || b > 0x39 {
            assert(!is_digit(d[i - start]));
            return None;
        }
        let ghost prev = d.subrange(0, i - start);
        let ghost next = d.subrange(0, i + 1 - start);
        proof {
            assert(next.drop_last() =~= prev);
            assert(next.last() == b);
            assert forall|k: int| 0 <= k < next.len() implies is_digit(#[trigger] next[k]) by {
                if k < prev.len() {
                    assert(next[k] == prev[k]);
                }
            }
        }
        let value: u64 = acc * 10 + (b - 0x30) as u64;
        if value > 0xffff_ffff {
            proof {
                if all_digits(d) {
                    lemma_prefix_value(d, i + 1 - start);
                }
            }
            return None;
        }
        acc = value;
        i += 1;
    }
    proof {
        assert(d.subrange(0, n - start) =~= d);
    }
    Some(acc as u32)
}

/// Appends the digits of `n` in base ten, without leading zeros.
pub fn push_decimal(dst: &mut Vec<u8>, n: u32)
    ensures
        final(dst)@ == old(dst)@ + decimal(n as nat),
    decreases n,
{
    if n >= 10 {
        push_decimal(dst, n / 10);
    }
    dst.push(0x30 + (n % 10) as u8);
    proof {
        if n >= 10 {
            assert(dst@ =~= old(dst)@ + decimal(n as nat));
        } else {
            assert(dst@ =~= old(dst)@ + decimal(n as nat));
        }
    }
}

/// The number of digits of `n` in base ten.
pub fn decimal_len(n: u32) -> (len: usize)
    ensures
        len == decimal(n as nat).len(),
        1 <= len <= 10,
    decreases n,
{
    if n >= 10 {
        let rest = decimal_len(n / 10);
        proof {
            lemma_ten_digits(n as nat);
        }
        rest + 1
    } else {
        1
    }
}

/// A number that fits in 32 bits has at most ten digits.
pub proof fn lemma_ten_digits(n: nat)
    requires
        n <= u32::MAX,
    ensures
        decimal(n).len() <= 10,
{
    assert(vstd::arithmetic::power::pow(10, 10) == 10_000_000_000int) by {
        reveal_with_fuel(vstd::arithmetic::power::pow, 11);
    }
    lemma_decimal_len(n, 10, 10_000_000_000nat);
}

/// Appends the digits of `n` in base ten, with zeros in front up to `width`
/// digits.
pub fn push_zero_padded(dst: &mut Vec<u8>, n: u32, width: usize)
    ensures
        final(dst)@ == old(dst)@ + zero_padded(n as nat, width as nat),
{
    let len = decimal_len(n);
    let mut i: usize = len;
    while i < width
        invariant
            len <= i,
            len < width ==> i <= width,
            len >= width ==> i == len,
            dst@ == old(dst)@ + zeros((i - len) as nat),
        decreases width - i,
    {
        dst.push(0x30);
        proof {
            assert(dst@ =~= old(dst)@ + zeros((i + 1 - len) as nat));
        }
        i += 1;
    }
    let ghost mid = dst@;
    push_decimal(dst, n);
    proof {
        if len >= width {
            assert(zeros(0) =~= Seq::<u8>::empty());
            assert(mid =~= old(dst)@);
        } else {
            assert(dst@ =~= old(dst)@ + (zeros((width - len) as nat) + decimal(n as nat)));
        }
    }
}

} // verus!
