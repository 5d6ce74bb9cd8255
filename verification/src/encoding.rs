//! Facts about the UTF-8 encoding of scalar values that the position model
//! and the merge rely on.

use vstd::prelude::*;
use vstd::utf8::*;

verus! {

/// The number of bytes that the UTF-8 encoding of `c` takes.
pub open spec fn utf8_width(c: char) -> int {
    encode_scalar(c as u32).len() as int
}

/// Every scalar value is encoded in one to four bytes.
pub proof fn lemma_utf8_width_bounds(c: char)
    ensures
        1 <= utf8_width(c) <= 4,
{
}

/// The number of bytes that `c` takes in UTF-8.
pub fn len_utf8(c: char) -> (width: usize)
    ensures
        width == utf8_width(c),
{
    let code: u32 = c as u32;
    if code < 0x80 {
        1
    } else if code < 0x800 {
        2
    } else if code < 0x10000 {
        3
    } else {
        4
    }
}

/// Encoding distributes over concatenation.
pub proof fn lemma_encode_utf8_concat(a: Seq<char>, b: Seq<char>)
    ensures
        encode_utf8(a + b) == encode_utf8(a) + encode_utf8(b),
    decreases a.len(),
{
    if a.len() == 0 {
        assert(a + b =~= b);
        assert(encode_utf8(a) + encode_utf8(b) =~= encode_utf8(b));
    } else {
        lemma_encode_utf8_concat(a.drop_first(), b);
        assert((a + b).drop_first() =~= a.drop_first() + b);
        assert(encode_scalar(a[0] as u32) + (encode_utf8(a.drop_first()) + encode_utf8(b))
            =~= (encode_scalar(a[0] as u32) + encode_utf8(a.drop_first())) + encode_utf8(b));
    }
}

/// A single scalar value is encoded as itself.
pub proof fn lemma_encode_utf8_single(c: char)
    ensures
        encode_utf8(seq![c]) == encode_scalar(c as u32),
{
    let s = seq![c];
    assert(s.drop_first() =~= Seq::<char>::empty());
    assert(encode_utf8(s.drop_first()) =~= Seq::<u8>::empty());
    assert(encode_scalar(c as u32) + Seq::<u8>::empty() =~= encode_scalar(c as u32));
}

/// The byte offset at which the scalar value with index `i` of `text`
/// starts in the encoding of `text`; for `i == text.len()`, the length of the
/// encoding.
pub open spec fn byte_offset_at(text: Seq<char>, i: int) -> int {
    encode_utf8(text.take(i)).len() as int
}

/// Offsets start at zero and grow by the width of each scalar value.
pub proof fn lemma_byte_offset_step(text: Seq<char>, i: int)
    requires
        0 <= i < text.len(),
    ensures
        byte_offset_at(text, 0) == 0,
        byte_offset_at(text, i + 1) == byte_offset_at(text, i) + utf8_width(text[i]),
{
    assert(text.take(0) =~= Seq::<char>::empty());
    assert(text.take(i + 1) =~= text.take(i) + seq![text[i]]);
    lemma_encode_utf8_concat(text.take(i), seq![text[i]]);
    lemma_encode_utf8_single(text[i]);
}

/// Offsets do not decrease with the index, and the last one is the length of
/// the whole encoding.
pub proof fn lemma_byte_offset_monotonic(text: Seq<char>, i: int, j: int)
    requires
        0 <= i <= j <= text.len(),
    ensures
        0 <= byte_offset_at(text, i) <= byte_offset_at(text, j) <= encode_utf8(text).len(),
        byte_offset_at(text, text.len() as int) == encode_utf8(text).len(),
        i < j ==> byte_offset_at(text, i) < byte_offset_at(text, j),
{
    assert(text.take(text.len() as int) =~= text);
    assert(text.take(j) =~= text.take(i) + text.subrange(i, j));
    lemma_encode_utf8_concat(text.take(i), text.subrange(i, j));
    assert(text =~= text.take(j) + text.skip(j));
    lemma_encode_utf8_concat(text.take(j), text.skip(j));
    if i < j {
        let mid = text.subrange(i, j);
        assert(mid =~= seq![mid[0]] + mid.drop_first());
        lemma_encode_utf8_concat(seq![mid[0]], mid.drop_first());
        lemma_encode_utf8_single(mid[0]);
        lemma_utf8_width_bounds(mid[0]);
    }
}

/// The bytes between two offsets are the encoding of the scalar values
/// between the two indices.
pub proof fn lemma_encoded_subrange(text: Seq<char>, i: int, j: int)
    requires
        0 <= i <= j <= text.len(),
    ensures
        encode_utf8(text).subrange(byte_offset_at(text, i), byte_offset_at(text, j))
            == encode_utf8(text.subrange(i, j)),
{
    let head = text.take(i);
    let mid = text.subrange(i, j);
    let tail = text.skip(j);
    assert(text.take(j) =~= head + mid);
    assert(text =~= text.take(j) + tail);
    lemma_encode_utf8_concat(head, mid);
    lemma_encode_utf8_concat(text.take(j), tail);
    assert(encode_utf8(text).subrange(byte_offset_at(text, i), byte_offset_at(text, j))
        =~= encode_utf8(mid));
}

/// Every offset of a scalar value, and the end of the encoding, is a
/// character boundary: cutting the encoding there never splits the bytes of
/// a scalar value.
pub proof fn lemma_offsets_are_boundaries(text: Seq<char>, i: int)
    requires
        0 <= i <= text.len(),
    ensures
        is_char_boundary(encode_utf8(text), byte_offset_at(text, i)),
        valid_utf8(encode_utf8(text).subrange(0, byte_offset_at(text, i))),
        valid_utf8(encode_utf8(text).subrange(byte_offset_at(text, i), encode_utf8(text).len() as int)),
    decreases text.len(),
{
    let bytes = encode_utf8(text);
    encode_utf8_valid_utf8(text);
    lemma_byte_offset_monotonic(text, 0, i);
    if i > 0 {
        let rest = text.drop_first();
        encode_utf8_first_scalar(text);
        lemma_byte_offset_monotonic(text, 0, 1);
        lemma_byte_offset_monotonic(text, 1, i);
        lemma_byte_offset_step(text, 0);
        assert(pop_first_scalar(bytes) =~= encode_utf8(rest));
        assert(text.take(i) =~= seq![text[0]] + rest.take(i - 1));
        lemma_encode_utf8_concat(seq![text[0]], rest.take(i - 1));
        lemma_encode_utf8_single(text[0]);
        assert(byte_offset_at(text, i) == utf8_width(text[0]) + byte_offset_at(rest, i - 1));
        lemma_offsets_are_boundaries(rest, i - 1);
    }
    valid_utf8_split(bytes, byte_offset_at(text, i));
}

} // verus!
