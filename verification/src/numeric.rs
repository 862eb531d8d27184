//! Numbers as a table holds them: decimal text in the numeric fields, and
//! eight bytes in binary floating point in the double and currency fields.
//!
//! The library does no floating-point arithmetic. A number of a numeric
//! field is kept as the decimal literal that the file holds, and a number of
//! a double or currency field as its 64 bits.

use vstd::prelude::*;

use crate::byte_order::{le_bytes_u64, le_u64, read_u64_le, u64_le_bytes};
use crate::digits::is_digit;

verus! {

/// The lower-case form of an ASCII letter; any other byte itself.
pub open spec fn lower(b: u8) -> u8 {
    if 0x41 <= b <= 0x5A {
        (b + 0x20) as u8
    } else {
        b
    }
}

/// `s` with its ASCII letters in lower case.
pub open spec fn lowered(s: Seq<u8>) -> Seq<u8> {
    Seq::new(s.len(), |i: int| lower(s[i]))
}

/// Whether `b` is a plus or a minus sign.
pub open spec fn is_sign(b: u8) -> bool {
    b == 0x2B || b == 0x2D
}

/// `s` without a sign at its start.
pub open spec fn unsigned_part(s: Seq<u8>) -> Seq<u8> {
    if s.len() > 0 && is_sign(s[0]) {
        s.skip(1)
    } else {
        s
    }
}

/// The index behind the run of digits that starts at `from`.
pub open spec fn digit_run(s: Seq<u8>, from: int) -> int
    decreases s.len() - from,
{
    if 0 <= from < s.len() && is_digit(s[from]) {
        digit_run(s, from + 1)
    } else {
        from
    }
}

/// Whether `s` is one of the words `inf`, `infinity` and `nan`, in any mix
/// of upper and lower case.
pub open spec fn is_special(s: Seq<u8>) -> bool {
    let l = lowered(s);
    ||| l == seq![0x69u8, 0x6Eu8, 0x66u8]
    ||| l == seq![0x69u8, 0x6Eu8, 0x66u8, 0x69u8, 0x6Eu8, 0x69u8, 0x74u8, 0x79u8]
    ||| l == seq![0x6Eu8, 0x61u8, 0x6Eu8]
}

/// The index behind the mantissa of `s`: digits, with at most one point
/// among, before or behind them. `None` where `s` starts with no digit, or
/// with a point that has no digit on either side.
pub open spec fn mantissa_end(s: Seq<u8>) -> Option<int> {
    let a = digit_run(s, 0);
    if a < s.len() && s[a] == 0x2E {
        let b = digit_run(s, a + 1);
        if a > 0 || b > a + 1 {
            Some(b)
        } else {
            None
        }
    } else if a > 0 {
        Some(a)
    } else {
        None
    }
}

/// Whether what stands in `s` from `from` on is an exponent: the letter `e`
/// in either case, an optional sign, and one or more digits up to the end.
pub open spec fn is_exponent(s: Seq<u8>, from: int) -> bool {
    &&& 0 <= from < s.len()
    &&& lower(s[from]) == 0x65
    &&& {
        let d = if from + 1 < s.len() && is_sign(s[from + 1]) {
            from + 2
        } else {
            from + 1
        };
        d < s.len() && digit_run(s, d) == s.len()
    }
}

/// Whether `s` is an unsigned number: a mantissa, and then nothing or an
/// exponent.
pub open spec fn is_number(s: Seq<u8>) -> bool {
    match mantissa_end(s) {
        Some(m) => m == s.len() || is_exponent(s, m),
        None => false,
    }
}

/// Whether `s` is a decimal literal: an optional sign, and then a number or
/// one of the words for infinity and for no number.
pub open spec fn is_decimal_literal(s: Seq<u8>) -> bool {
    let u = unsigned_part(s);
    is_special(u) || is_number(u)
}

/// The number of digits behind the point of a literal that has no exponent;
/// zero where it has no point. `None` for a literal of another shape.
pub open spec fn fraction_digits(s: Seq<u8>) -> Option<nat> {
    let u = unsigned_part(s);
    match mantissa_end(u) {
        Some(m) => if m == u.len() {
            Some((m - digit_run(u, 0) - if digit_run(u, 0) < m {
                1int
            } else {
                0int
            }) as nat)
        } else {
            None
        },
        None => None,
    }
}

/// Whether the literal `s` can stand in a field with `places` decimal
/// places: it has exactly that many digits behind the point and no
/// exponent, or it is one of the words for infinity and for no number.
pub open spec fn fits_places(s: Seq<u8>, places: nat) -> bool {
    is_special(unsigned_part(s)) || fraction_digits(s) == Some(places)
}

/// Whether `b` can stand in a decimal literal: a digit, a sign, the point
/// or an ASCII letter.
pub open spec fn is_literal_byte(b: u8) -> bool {
    is_digit(b) || is_sign(b) || b == 0x2E || 0x41 <= b <= 0x5A || 0x61 <= b <= 0x7A
}

/// A run of digits holds digits, and ends within the text.
pub proof fn lemma_digit_run(s: Seq<u8>, from: int)
    requires
        0 <= from <= s.len(),
    ensures
        from <= digit_run(s, from) <= s.len(),
        forall|i: int| from <= i < digit_run(s, from) ==> is_digit(#[trigger] s[i]),
    decreases s.len() - from,
{
    if from < s.len() && is_digit(s[from]) {
        lemma_digit_run(s, from + 1);
    }
}

/// A decimal literal is not empty, and each of its bytes is a digit, a
/// sign, the point or a letter: it has no pad byte, no NUL byte and no
/// overflow mark.
pub proof fn lemma_literal_bytes(s: Seq<u8>)
    requires
        is_decimal_literal(s),
    ensures
        s.len() > 0,
        forall|i: int| 0 <= i < s.len() ==> is_literal_byte(#[trigger] s[i]),
{
    let u = unsigned_part(s);
    let shift = s.len() - u.len();
    assert(u.len() > 0 && forall|i: int| 0 <= i < u.len() ==> is_literal_byte(#[trigger] u[i])) by {
        if is_special(u) {
            let l = lowered(u);
            assert(l.len() == u.len());
            assert forall|i: int| 0 <= i < u.len() implies is_literal_byte(#[trigger] u[i]) by {
                assert(l[i] == lower(u[i]));
                assert(0x61 <= l[i] <= 0x7A);
            }
        } else {
            let a = digit_run(u, 0);
            lemma_digit_run(u, 0);
            let m = mantissa_end(u)->Some_0;
            if a < u.len() && u[a] == 0x2E {
                lemma_digit_run(u, a + 1);
            }
            assert(0 < m <= u.len());
            assert forall|i: int| 0 <= i < m implies is_literal_byte(#[trigger] u[i]) by {
                if i < a {
                    assert(is_digit(u[i]));
                } else if i == a {
                } else {
                    assert(is_digit(u[i]));
                }
            }
            if m < u.len() {
                let d = if m + 1 < u.len() && is_sign(u[m + 1]) {
                    m + 2
                } else {
                    m + 1
                };
                lemma_digit_run(u, d);
                assert forall|i: int| m <= i < u.len() implies is_literal_byte(#[trigger] u[i]) by {
                    if i == m {
                        assert(lower(u[m]) == 0x65);
                    } else if i < d {
                    } else {
                        assert(is_digit(u[i]));
                    }
                }
            }
        }
    }
    assert forall|i: int| 0 <= i < s.len() implies is_literal_byte(#[trigger] s[i]) by {
        if i >= shift {
            assert(s[i] == u[i - shift]);
            assert(is_literal_byte(u[i - shift]));
        }
    }
}

/// The index behind the run of digits of `bytes` that starts at `from`.
fn scan_digits(bytes: &[u8], from: usize) -> (end: usize)
    requires
        from <= bytes@.len(),
    ensures
        end == digit_run(bytes@, from as int),
        from <= end <= bytes@.len(),
{
    let mut i: usize = from;
    while i < bytes.len() && bytes[i] >= 0x30 && bytes[i] <= 0x39
        invariant
            from <= i <= bytes@.len(),
            digit_run(bytes@, i as int) == digit_run(bytes@, from as int),
        decreases bytes@.len() - i,
    {
        i += 1;
    }
    i
}

/// The lower-case form of an ASCII letter; any other byte itself.
fn lower_byte(b: u8) -> (l: u8)
    ensures
        l == lower(b),
{
    if b >= 0x41 && b <= 0x5A {
        b + 0x20
    } else {
        b
    }
}

/// Whether `bytes`, from `from` on, are the word `word` in any mix of upper
/// and lower case. The word is in lower case.
fn is_word(bytes: &[u8], from: usize, word: &[u8]) -> (b: bool)
    requires
        from <= bytes@.len(),
        forall|i: int| 0 <= i < word@.len() ==> lower(#[trigger] word@[i]) == word@[i],
    ensures
        b == (lowered(bytes@.skip(from as int)) == word@),
{
    let n = bytes.len() - from;
    if n != word.len() {
        return false;
    }
    let ghost tail = bytes@.skip(from as int);
    let mut i: usize = 0;
    while i < n
        invariant
            i <= n,
            n == word@.len(),
            n == bytes@.len() - from,
            from + n <= usize::MAX,
            tail == bytes@.skip(from as int),
            forall|k: int| 0 <= k < i ==> lower(tail[k]) == word@[k],
        decreases n - i,
    {
        if lower_byte(bytes[from + i]) != word[i] {
            proof {
                assert(lowered(tail)[i as int] == lower(tail[i as int]));
            }
            return false;
        }
        i += 1;
    }
    proof {
        assert(lowered(tail) =~= word@);
    }
    true
}

/// Whether `bytes`, from `from` on, are one of the words `inf`, `infinity`
/// and `nan`.
fn scan_special(bytes: &[u8], from: usize) -> (b: bool)
    requires
        from <= bytes@.len(),
    ensures
        b == is_special(bytes@.skip(from as int)),
{
    let inf: [u8; 3] = [0x69, 0x6E, 0x66];
    let infinity: [u8; 8] = [0x69, 0x6E, 0x66, 0x69, 0x6E, 0x69, 0x74, 0x79];
    let nan: [u8; 3] = [0x6E, 0x61, 0x6E];
    let a = is_word(bytes, from, inf.as_slice());
    let b = is_word(bytes, from, infinity.as_slice());
    let c = is_word(bytes, from, nan.as_slice());
    proof {
        assert(inf@ =~= seq![0x69u8, 0x6Eu8, 0x66u8]);
        assert(infinity@ =~= seq![0x69u8, 0x6Eu8, 0x66u8, 0x69u8, 0x6Eu8, 0x69u8, 0x74u8, 0x79u8]);
        assert(nan@ =~= seq![0x6Eu8, 0x61u8, 0x6Eu8]);
    }
    a || b || c
}

/// The index at which the unsigned part of `bytes` starts: 1 behind a sign,
/// else 0.
fn scan_sign(bytes: &[u8]) -> (start: usize)
    ensures
        start <= bytes@.len(),
        unsigned_part(bytes@) == bytes@.skip(start as int),
        start == if bytes@.len() > 0 && is_sign(bytes@[0]) {
            1int
        } else {
            0int
        },
{
    if bytes.len() > 0 && (bytes[0] == 0x2B || bytes[0] == 0x2D) {
        1
    } else {
        proof {
            assert(bytes@.skip(0) =~= bytes@);
        }
        0
    }
}

/// The index behind the mantissa of `bytes`, if it starts with one.
fn scan_mantissa(bytes: &[u8]) -> (end: Option<usize>)
    ensures
        match end {
            Some(m) => mantissa_end(bytes@) == Some(m as int) && m <= bytes@.len(),
            None => mantissa_end(bytes@) is None,
        },
{
    let a = scan_digits(bytes, 0);
    if a < bytes.len() && bytes[a] == 0x2E {
        let b = scan_digits(bytes, a + 1);
        if a > 0 || b > a + 1 {
            Some(b)
        } else {
            None
        }
    } else if a > 0 {
        Some(a)
    } else {
        None
    }
}

/// Whether what stands in `bytes` from `from` on is an exponent.
fn scan_exponent(bytes: &[u8], from: usize) -> (b: bool)
    requires
        from <= bytes@.len(),
    ensures
        b == is_exponent(bytes@, from as int),
{
    if from >= bytes.len() {
        return false;
    }
    if lower_byte(bytes[from]) != 0x65 {
        return false;
    }
    let d: usize = if from + 1 < bytes.len() && (bytes[from + 1] == 0x2B || bytes[from + 1]
        == 0x2D) {
        from + 2
    } else {
        from + 1
    };
    if d >= bytes.len() {
        return false;
    }
    scan_digits(bytes, d) == bytes.len()
}

/// Whether `bytes` are a decimal literal.
pub fn check_decimal_literal(bytes: &[u8]) -> (b: bool)
    ensures
        b == is_decimal_literal(bytes@),
{
    let start = scan_sign(bytes);
    if scan_special(bytes, start) {
        return true;
    }
    let rest = vstd::slice::slice_subrange(bytes, start, bytes.len());
    proof {
        assert(rest@ =~= bytes@.skip(start as int));
    }
    match scan_mantissa(rest) {
        Some(m) => m == rest.len() || scan_exponent(rest, m),
        None => false,
    }
}

/// Whether the literal `bytes` can stand in a field with `places` decimal
/// places.
pub fn check_places(bytes: &[u8], places: u8) -> (b: bool)
    ensures
        b == fits_places(bytes@, places as nat),
{
    let start = scan_sign(bytes);
    if scan_special(bytes, start) {
        return true;
    }
    let rest = vstd::slice::slice_subrange(bytes, start, bytes.len());
    proof {
        assert(rest@ =~= bytes@.skip(start as int));
    }
    match scan_mantissa(rest) {
        Some(m) => {
            if m != rest.len() {
                return false;
            }
            let a = scan_digits(rest, 0);
            let digits: usize = if a < m {
                m - a - 1
            } else {
                0
            };
            digits == places as usize
        },
        None => false,
    }
}

/// A number of a numeric or float field, kept as the decimal literal that
/// writes it: an optional sign, then digits with an optional point and an
/// optional exponent, or one of the words `inf`, `infinity` and `nan`.
#[derive(Debug, PartialEq, Eq)]
pub struct Decimal {
    text: Vec<u8>,
}

impl View for Decimal {
    type V = Seq<u8>;

    closed spec fn view(&self) -> Seq<u8> {
        self.text@
    }
}

impl Clone for Decimal {
    fn clone(&self) -> (copy: Decimal)
        ensures
            copy@ == self@,
    {
        proof {
            use_type_invariant(self);
        }
        Decimal { text: vstd::slice::slice_to_vec(self.text.as_slice()) }
    }
}

impl Decimal {
    #[verifier::type_invariant]
    spec fn well_formed(self) -> bool {
        is_decimal_literal(self.text@)
    }

    /// The text of this number is a decimal literal.
    pub open spec fn wf(self) -> bool {
        is_decimal_literal(self@)
    }

    /// The number that the literal `bytes` writes; `None` where the bytes
    /// are no decimal literal.
    pub fn from_ascii(bytes: &[u8]) -> (r: Option<Decimal>)
        ensures
            match r {
                Some(d) => is_decimal_literal(bytes@) && d@ == bytes@,
                None => !is_decimal_literal(bytes@),
            },
    {
        if check_decimal_literal(bytes) {
            Some(Decimal { text: vstd::slice::slice_to_vec(bytes) })
        } else {
            None
        }
    }

    /// The literal that writes this number.
    pub fn as_bytes(&self) -> (bytes: &[u8])
        ensures
            bytes@ == self@,
            is_decimal_literal(self@),
    {
        proof {
            use_type_invariant(self);
        }
        self.text.as_slice()
    }

    /// Whether this number can stand in a field with `places` decimal
    /// places.
    pub fn fits_places(&self, places: u8) -> (b: bool)
        ensures
            b == fits_places(self@, places as nat),
    {
        check_places(self.text.as_slice(), places)
    }
}

/// A number of a double or currency field, kept as the 64 bits of its
/// binary floating-point form.
#[derive(Debug, Copy, Clone, PartialEq, Eq, Structural)]
pub struct Binary64 {
    pub bits: u64,
}

impl Binary64 {
    /// The eight bytes of this number in a record, least significant byte
    /// first.
    pub open spec fn bytes(self) -> Seq<u8> {
        le_bytes_u64(self.bits as int)
    }

    /// The number of the given bits.
    pub fn from_bits(bits: u64) -> (n: Binary64)
        ensures
            n.bits == bits,
    {
        Binary64 { bits }
    }

    /// The bits of this number.
    pub fn to_bits(&self) -> (bits: u64)
        ensures
            bits == self.bits,
    {
        self.bits
    }

    /// The number that the first eight bytes of `src` hold.
    pub fn from_le_bytes(src: &[u8]) -> (n: Binary64)
        requires
            src@.len() >= 8,
        ensures
            n.bits == le_u64(src@),
    {
        Binary64 { bits: read_u64_le(src) }
    }

    /// The eight bytes of this number, least significant byte first.
    pub fn to_le_bytes(&self) -> (bytes: [u8; 8])
        ensures
            bytes@ == self.bytes(),
    {
        u64_le_bytes(self.bits)
    }
}

} // verus!
