//! Character boundaries in UTF-8 text.

use vstd::prelude::*;
use vstd::utf8::*;

verus! {

/// A boundary is an index into the text or its end.
pub proof fn lemma_boundary_in_range(bytes: Seq<u8>, i: int)
    requires
        valid_utf8(bytes),
        is_char_boundary(bytes, i),
    ensures
        0 <= i <= bytes.len(),
{
    if i != 0 && (i < 0 || bytes.len() < i) {
        assert(!is_char_boundary(bytes, i));
    }
}

/// Text that was put together of two parts is encoded as the two parts are.
pub proof fn lemma_encode_concat(a: Seq<char>, b: Seq<char>)
    ensures
        encode_utf8(a + b) == encode_utf8(a) + encode_utf8(b),
    decreases a.len(),
{
    if a.len() == 0 {
        assert(a + b =~= b);
        assert(encode_utf8(a) + encode_utf8(b) =~= encode_utf8(b));
    } else {
        lemma_encode_concat(a.drop_first(), b);
        assert((a + b).drop_first() =~= a.drop_first() + b);
        assert(encode_utf8(a + b) =~= encode_utf8(a) + encode_utf8(b));
    }
}

/// A boundary behind another one is a boundary of what follows that other one.
pub proof fn lemma_boundary_of_tail(bytes: Seq<u8>, i: int, j: int)
    requires
        valid_utf8(bytes),
        is_char_boundary(bytes, i),
        is_char_boundary(bytes, j),
        i <= j,
    ensures
        0 <= i <= j <= bytes.len(),
        is_char_boundary(bytes.subrange(i, bytes.len() as int), j - i),
{
    lemma_boundary_in_range(bytes, i);
    lemma_boundary_in_range(bytes, j);
    let tail = bytes.subrange(i, bytes.len() as int);
    valid_utf8_split(bytes, i);
    if j == bytes.len() {
        is_char_boundary_start_end_of_seq(tail);
    } else {
        is_char_boundary_iff_not_is_continuation_byte(bytes, j);
        is_char_boundary_iff_not_is_continuation_byte(tail, j - i);
    }
}

/// Text that is added at the end moves no boundary.
pub proof fn lemma_boundary_kept(a: Seq<u8>, b: Seq<u8>, i: int)
    requires
        valid_utf8(a),
        valid_utf8(b),
        is_char_boundary(a, i),
    ensures
        is_char_boundary(a + b, i),
{
    lemma_boundary_in_range(a, i);
    valid_utf8_concat(a, b);
    if i < a.len() {
        is_char_boundary_iff_not_is_continuation_byte(a, i);
        is_char_boundary_iff_not_is_continuation_byte(a + b, i);
    } else if b.len() == 0 {
        is_char_boundary_start_end_of_seq(a + b);
    } else {
        is_char_boundary_start_end_of_seq(b);
        is_char_boundary_iff_not_is_continuation_byte(b, 0);
        is_char_boundary_iff_not_is_continuation_byte(a + b, i);
    }
}

/// The part of a text between two boundaries.
pub fn str_between(s: &str, first: usize, last: usize) -> (r: &str)
    requires
        first <= last,
        is_char_boundary(encode_utf8(s@), first as int),
        is_char_boundary(encode_utf8(s@), last as int),
    ensures
        encode_utf8(r@) == encode_utf8(s@).subrange(first as int, last as int),
{
    let ghost bytes = encode_utf8(s@);
    proof {
        encode_utf8_valid_utf8(s@);
        lemma_boundary_of_tail(bytes, first as int, last as int);
    }
    let (_, tail) = s.split_at(first);
    let (r, _) = tail.split_at(last - first);
    assert(bytes.subrange(first as int, bytes.len() as int).subrange(0, last - first)
        =~= bytes.subrange(first as int, last as int));
    r
}

} // verus!
