//! Trimming of the pad bytes that surround a value in its field.

use vstd::prelude::*;
use vstd::slice::slice_subrange;

verus! {

/// The byte that fills the unused width of a field.
pub const PAD: u8 = 0x20;

/// The byte that ends the text of a field early.
pub const NUL: u8 = 0x00;

/// `count` NUL bytes.
pub open spec fn nuls(count: nat) -> Seq<u8> {
    Seq::new(count, |i: int| NUL)
}

/// Appends `count` NUL bytes to `dst`.
pub fn push_nuls(dst: &mut Vec<u8>, count: usize)
    ensures
        final(dst)@ == old(dst)@ + nuls(count as nat),
{
    let mut i: usize = 0;
    while i < count
        invariant
            i <= count,
            dst@ == old(dst)@ + nuls(i as nat),
        decreases count - i,
    {
        dst.push(NUL);
        proof {
            assert(dst@ =~= old(dst)@ + nuls((i + 1) as nat));
        }
        i += 1;
    }
    proof {
        assert(old(dst)@ + nuls(0) =~= old(dst)@);
    }
}

/// The part of `s` that stands before its first byte `stop`; all of `s`
/// where it has no such byte.
pub open spec fn before_byte(s: Seq<u8>, stop: u8) -> Seq<u8>
    decreases s.len(),
{
    if s.len() == 0 || s[0] == stop {
        Seq::empty()
    } else {
        seq![s[0]] + before_byte(s.skip(1), stop)
    }
}

/// `s` without the bytes `fill` at its start.
pub open spec fn skip_leading(s: Seq<u8>, fill: u8) -> Seq<u8>
    decreases s.len(),
{
    if s.len() > 0 && s[0] == fill {
        skip_leading(s.skip(1), fill)
    } else {
        s
    }
}

/// `s` without the bytes `fill` at its end.
pub open spec fn drop_trailing(s: Seq<u8>, fill: u8) -> Seq<u8>
    decreases s.len(),
{
    if s.len() > 0 && s.last() == fill {
        drop_trailing(s.drop_last(), fill)
    } else {
        s
    }
}

/// The value that the raw bytes of a field hold: what stands before the
/// first NUL byte, without the pad bytes on either side.
pub open spec fn trimmed(s: Seq<u8>) -> Seq<u8> {
    drop_trailing(skip_leading(before_byte(s, NUL), PAD), PAD)
}

/// Whether `end` is where `s` is cut by the byte `stop`: at the first such
/// byte, or at the end of `s` if it has none.
pub open spec fn is_cut(s: Seq<u8>, stop: u8, end: int) -> bool {
    &&& 0 <= end <= s.len()
    &&& forall|i: int| 0 <= i < end ==> s[i] != stop
    &&& end < s.len() ==> s[end] == stop
}

/// Whether `end` is where the text of `s` ends: at its first NUL byte, or at
/// the end of `s` if it has none.
pub open spec fn is_text_end(s: Seq<u8>, end: int) -> bool {
    is_cut(s, NUL, end)
}

/// `before_byte` cuts `s` at `end`, where `stop` cuts it.
pub proof fn lemma_before_byte(s: Seq<u8>, stop: u8, end: int)
    requires
        is_cut(s, stop, end),
    ensures
        before_byte(s, stop) == s.subrange(0, end),
    decreases s.len(),
{
    if s.len() == 0 || s[0] == stop {
        assert(end == 0);
        assert(s.subrange(0, 0) =~= Seq::<u8>::empty());
    } else {
        let t = s.skip(1);
        assert(is_cut(t, stop, end - 1)) by {
            assert forall|i: int| 0 <= i < end - 1 implies t[i] != stop by {
                assert(t[i] == s[i + 1]);
            }
        }
        lemma_before_byte(t, stop, end - 1);
        assert(seq![s[0]] + t.subrange(0, end - 1) =~= s.subrange(0, end));
    }
}

/// `skip_leading` cuts `s` at its first byte that is not `fill`.
pub proof fn lemma_skip_leading(s: Seq<u8>, fill: u8, start: int)
    requires
        0 <= start <= s.len(),
        forall|i: int| 0 <= i < start ==> s[i] == fill,
        start < s.len() ==> s[start] != fill,
    ensures
        skip_leading(s, fill) == s.subrange(start, s.len() as int),
    decreases s.len(),
{
    if s.len() > 0 && s[0] == fill {
        let t = s.skip(1);
        assert forall|i: int| 0 <= i < start - 1 implies t[i] == fill by {
            assert(t[i] == s[i + 1]);
        }
        lemma_skip_leading(t, fill, start - 1);
        assert(t.subrange(start - 1, t.len() as int) =~= s.subrange(start, s.len() as int));
    } else {
        assert(start == 0);
        assert(s.subrange(0, s.len() as int) =~= s);
    }
}

/// `drop_trailing` cuts `s` behind its last byte that is not `fill`.
pub proof fn lemma_drop_trailing(s: Seq<u8>, fill: u8, end: int)
    requires
        0 <= end <= s.len(),
        forall|i: int| end <= i < s.len() ==> s[i] == fill,
        end > 0 ==> s[end - 1] != fill,
    ensures
        drop_trailing(s, fill) == s.subrange(0, end),
    decreases s.len(),
{
    if s.len() > 0 && s.last() == fill {
        let t = s.drop_last();
        lemma_drop_trailing(t, fill, end);
        assert(t.subrange(0, end) =~= s.subrange(0, end));
    } else {
        assert(end == s.len());
        assert(s.subrange(0, s.len() as int) =~= s);
    }
}

/// The trimmed value is the smallest span of the text that leaves out only
/// pad bytes: where the text of `s` ends at `end`, its first byte that is no
/// pad byte stands at `first` and its last one at `last`, the trimmed value
/// is exactly the bytes from `first` to `last`.
pub proof fn lemma_trimmed_is_minimal_span(s: Seq<u8>, first: int, last: int, end: int)
    requires
        is_text_end(s, end),
        0 <= first <= last < end,
        s[first] != PAD,
        s[last] != PAD,
        forall|i: int| 0 <= i < first ==> s[i] == PAD,
        forall|i: int| last < i < end ==> s[i] == PAD,
    ensures
        trimmed(s) == s.subrange(first, last + 1),
{
    let text = s.subrange(0, end);
    lemma_before_byte(s, NUL, end);
    lemma_skip_leading(text, PAD, first);
    let tail = text.subrange(first, end);
    lemma_drop_trailing(tail, PAD, last + 1 - first);
    assert(tail.subrange(0, last + 1 - first) =~= s.subrange(first, last + 1));
}

/// A field whose text holds nothing but pad bytes has the empty value. This
/// covers the field that is all pad bytes (`end` is its length) and the field
/// that starts with a NUL byte (`end` is 0).
pub proof fn lemma_trimmed_of_padding(s: Seq<u8>, end: int)
    requires
        is_text_end(s, end),
        forall|i: int| 0 <= i < end ==> s[i] == PAD,
    ensures
        trimmed(s) == Seq::<u8>::empty(),
{
    let text = s.subrange(0, end);
    lemma_before_byte(s, NUL, end);
    lemma_skip_leading(text, PAD, end);
    assert(text.subrange(end, end) =~= Seq::<u8>::empty());
}

/// A trimmed value has no NUL byte, and neither starts nor ends with a pad
/// byte.
pub proof fn lemma_trimmed_shape(s: Seq<u8>)
    ensures
        forall|i: int| 0 <= i < trimmed(s).len() ==> trimmed(s)[i] != NUL,
        trimmed(s).len() > 0 ==> trimmed(s)[0] != PAD && trimmed(s).last() != PAD,
        trimmed(s).len() <= s.len(),
{
    lemma_before_byte_shape(s, NUL);
    lemma_skip_leading_shape(before_byte(s, NUL), PAD);
    lemma_drop_trailing_shape(skip_leading(before_byte(s, NUL), PAD), PAD);
}

/// `before_byte` gives the prefix of `s` up to where `stop` cuts it.
pub proof fn lemma_before_byte_shape(s: Seq<u8>, stop: u8)
    ensures
        before_byte(s, stop).len() <= s.len(),
        before_byte(s, stop) == s.subrange(0, before_byte(s, stop).len() as int),
        is_cut(s, stop, before_byte(s, stop).len() as int),
    decreases s.len(),
{
    if s.len() == 0 || s[0] == stop {
        assert(s.subrange(0, 0) =~= Seq::<u8>::empty());
    } else {
        let t = s.skip(1);
        lemma_before_byte_shape(t, stop);
        let n = before_byte(t, stop).len() as int;
        assert(seq![s[0]] + t.subrange(0, n) =~= s.subrange(0, n + 1));
        assert forall|i: int| 0 <= i < n + 1 implies s[i] != stop by {
            if i > 0 {
                assert(s[i] == t[i - 1]);
            }
        }
        if n + 1 < s.len() {
            assert(s[n + 1] == t[n]);
        }
    }
}

/// `skip_leading` gives a suffix of `s` that does not start with `fill`.
pub proof fn lemma_skip_leading_shape(s: Seq<u8>, fill: u8)
    ensures
        skip_leading(s, fill).len() <= s.len(),
        skip_leading(s, fill) == s.subrange(
            s.len() - skip_leading(s, fill).len(),
            s.len() as int,
        ),
        skip_leading(s, fill).len() > 0 ==> skip_leading(s, fill)[0] != fill,
        forall|i: int| 0 <= i < s.len() - skip_leading(s, fill).len() ==> s[i] == fill,
    decreases s.len(),
{
    if s.len() > 0 && s[0] == fill {
        let t = s.skip(1);
        lemma_skip_leading_shape(t, fill);
        let k = t.len() - skip_leading(t, fill).len();
        assert(t.subrange(k, t.len() as int) =~= s.subrange(k + 1, s.len() as int));
        assert forall|i: int| 0 <= i < k + 1 implies s[i] == fill by {
            if i > 0 {
                assert(s[i] == t[i - 1]);
            }
        }
    } else {
        assert(s.subrange(0, s.len() as int) =~= s);
    }
}

/// `drop_trailing` gives a prefix of `s` that does not end with `fill`.
pub proof fn lemma_drop_trailing_shape(s: Seq<u8>, fill: u8)
    ensures
        drop_trailing(s, fill).len() <= s.len(),
        drop_trailing(s, fill) == s.subrange(0, drop_trailing(s, fill).len() as int),
        drop_trailing(s, fill).len() > 0 ==> drop_trailing(s, fill).last() != fill,
        forall|i: int| drop_trailing(s, fill).len() <= i < s.len() ==> s[i] == fill,
    decreases s.len(),
{
    if s.len() > 0 && s.last() == fill {
        let t = s.drop_last();
        lemma_drop_trailing_shape(t, fill);
        let k = drop_trailing(t, fill).len() as int;
        assert(t.subrange(0, k) =~= s.subrange(0, k));
        assert forall|i: int| k <= i < s.len() implies s[i] == fill by {
            if i < t.len() {
                assert(s[i] == t[i]);
            }
        }
    } else {
        assert(s.subrange(0, s.len() as int) =~= s);
    }
}

/// The index of the first byte `stop` in `bytes`, or the length of `bytes`
/// where it has none.
pub fn find_byte(bytes: &[u8], stop: u8) -> (end: usize)
    ensures
        is_cut(bytes@, stop, end as int),
        before_byte(bytes@, stop) == bytes@.subrange(0, end as int),
{
    let mut i: usize = 0;
    while i < bytes.len() && bytes[i] != stop
        invariant
            i <= bytes@.len(),
            forall|k: int| 0 <= k < i ==> bytes@[k] != stop,
        decreases bytes@.len() - i,
    {
        i += 1;
    }
    proof {
        lemma_before_byte(bytes@, stop, i as int);
    }
    i
}

/// The length of `bytes` without the bytes `fill` at its end.
pub fn trailing_end(bytes: &[u8], fill: u8) -> (end: usize)
    ensures
        end <= bytes@.len(),
        drop_trailing(bytes@, fill) == bytes@.subrange(0, end as int),
{
    let mut end: usize = bytes.len();
    while end > 0 && bytes[end - 1] == fill
        invariant
            end <= bytes@.len(),
            forall|k: int| end <= k < bytes@.len() ==> bytes@[k] == fill,
        decreases end,
    {
        end -= 1;
    }
    proof {
        lemma_drop_trailing(bytes@, fill, end as int);
    }
    end
}

/// The value of a field without its padding: the bytes from the first to
/// the last byte that is neither a pad byte nor behind a NUL byte. One pass
/// over the field, and the result borrows from it.
pub fn trim_field_data(bytes: &[u8]) -> (value: &[u8])
    ensures
        value@ == trimmed(bytes@),
{
    let mut first: usize = 0;
    let mut last: usize = 0;
    let mut found = false;
    let mut i: usize = 0;
    while i < bytes.len()
        invariant_except_break
            i <= bytes.len(),
        invariant
            forall|k: int| 0 <= k < i ==> bytes@[k] != NUL,
            found ==> first <= last < i && bytes@[first as int] != PAD && bytes@[last as int]
                != PAD,
            found ==> forall|k: int| 0 <= k < first ==> bytes@[k] == PAD,
            found ==> forall|k: int| last < k < i ==> bytes@[k] == PAD,
            !found ==> forall|k: int| 0 <= k < i ==> bytes@[k] == PAD,
        ensures
            is_text_end(bytes@, i as int),
        decreases bytes.len() - i,
    {
        let b = bytes[i];
        if b == NUL {
            break ;
        }
        if b != PAD {
            if !found {
                first = i;
                found = true;
            }
            last = i;
        }
        i += 1;
    }
    if found {
        proof {
            lemma_trimmed_is_minimal_span(bytes@, first as int, last as int, i as int);
        }
        slice_subrange(bytes, first, last + 1)
    } else {
        proof {
            lemma_trimmed_of_padding(bytes@, i as int);
            assert(bytes@.subrange(0, 0) =~= Seq::<u8>::empty());
        }
        slice_subrange(bytes, 0, 0)
    }
}

} // verus!
