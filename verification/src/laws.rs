//! What holds of substrings, whatever the array.

use crate::array::Array;
use crate::cut::{cut, cut_elements, cut_end, cut_start};
use crate::offset::OffsetSizeTrait;
use crate::string::GenericStringArray;
use crate::text::lemma_boundary_of_tail;
use vstd::prelude::*;
use vstd::utf8::*;

verus! {

/// The length of a substring: what `length` asks for, as far as the string goes.
pub proof fn law_cut_length(s: Seq<u8>, start: int, length: Option<u64>)
    ensures
        cut(s, start, length).len() == match length {
            Some(l) if l < s.len() - cut_start(s.len() as int, start) => l as int,
            _ => s.len() - cut_start(s.len() as int, start),
        },
        cut(s, start, length).len() <= s.len(),
{
}

/// A negative start counts from the end of the string.
pub proof fn law_negative_start(s: Seq<u8>, back: int, length: Option<u64>)
    requires
        0 < back <= s.len(),
    ensures
        cut(s, -back, length) == cut(s, s.len() - back, length),
{
}

/// A string falls into what comes before an index and what comes from there on.
pub proof fn law_split(s: Seq<u8>, at: u64)
    ensures
        cut(s, 0, Some(at)) + cut(s, at as int, None) == s,
{
    assert(cut(s, 0, Some(at)) + cut(s, at as int, None) =~= s);
}

/// A string falls into what comes before its last bytes and those bytes.
pub proof fn law_split_from_end(s: Seq<u8>, back: int, front: u64)
    requires
        0 < back <= s.len(),
        front == s.len() - back,
    ensures
        cut(s, 0, Some(front)) + cut(s, -back, None) == s,
{
    assert(cut(s, 0, Some(front)) + cut(s, -back, None) =~= s);
}

/// Two starts that are not negative add up.
pub proof fn law_starts_add_up(s: Seq<u8>, first: int, second: int, length: Option<u64>)
    requires
        0 <= first,
        0 <= second,
    ensures
        cut(cut(s, first, None), second, length) == cut(s, first + second, length),
{
    assert(cut(cut(s, first, None), second, length) =~= cut(s, first + second, length));
}

/// The length is counted from where the substring starts.
pub proof fn law_length_from_start(s: Seq<u8>, start: int, length: Option<u64>)
    ensures
        cut(cut(s, start, None), 0, length) == cut(s, start, length),
{
    assert(cut(cut(s, start, None), 0, length) =~= cut(s, start, length));
}

/// The longer of two substrings with the same start begins with the shorter one.
pub proof fn law_shorter_is_prefix(s: Seq<u8>, start: int, short: u64, long: u64)
    requires
        short <= long,
    ensures
        cut(cut(s, start, Some(long)), 0, Some(short)) == cut(s, start, Some(short)),
{
    assert(cut(cut(s, start, Some(long)), 0, Some(short)) =~= cut(s, start, Some(short)));
}

/// Elements whose substrings begin at their first byte and are not shortened stay as they are:
/// with a start of zero or one that reaches back behind all of them, and no length or one that
/// none of them exceeds.
pub proof fn law_identity(elements: Seq<Option<Seq<u8>>>, start: int, length: Option<u64>)
    requires
        forall|i: int|
            0 <= i < elements.len() ==> (#[trigger] elements[i] matches Some(s) ==> {
                &&& start == 0 || start <= -s.len()
                &&& length matches Some(l) ==> l >= s.len()
            }),
    ensures
        cut_elements(elements, start, length) == elements,
{
    assert forall|i: int| 0 <= i < elements.len() implies #[trigger] cut_elements(
        elements,
        start,
        length,
    )[i] == elements[i] by {
        if let Some(s) = elements[i] {
            assert(cut(s, start, length) =~= s);
        }
    }
    assert(cut_elements(elements, start, length) =~= elements);
}

/// A length of zero, or a start behind all elements, leaves empty elements and nulls.
pub proof fn law_nothing(elements: Seq<Option<Seq<u8>>>, start: int, length: Option<u64>)
    requires
        length == Some(0u64) || forall|i: int|
            0 <= i < elements.len() ==> (#[trigger] elements[i] matches Some(s) ==> start
                >= s.len()),
    ensures
        forall|i: int|
            0 <= i < elements.len() ==> #[trigger] cut_elements(elements, start, length)[i] == (
            match elements[i] {
                Some(s) => Some(Seq::<u8>::empty()),
                None => None,
            }),
{
    assert forall|i: int| 0 <= i < elements.len() implies #[trigger] cut_elements(
        elements,
        start,
        length,
    )[i] == (match elements[i] {
        Some(s) => Some(Seq::<u8>::empty()),
        None => None,
    }) by {
        if let Some(s) = elements[i] {
            assert(cut(s, start, length) =~= Seq::empty());
        }
    }
}

/// Elements that are all null or empty stay as they are.
pub proof fn law_empty_kept(elements: Seq<Option<Seq<u8>>>, start: int, length: Option<u64>)
    requires
        forall|i: int|
            0 <= i < elements.len() ==> (#[trigger] elements[i] matches Some(s) ==> s.len() == 0),
    ensures
        cut_elements(elements, start, length) == elements,
{
    assert forall|i: int| 0 <= i < elements.len() implies #[trigger] cut_elements(
        elements,
        start,
        length,
    )[i] == elements[i] by {
        if let Some(s) = elements[i] {
            assert(cut(s, start, length) =~= s);
        }
    }
    assert(cut_elements(elements, start, length) =~= elements);
}

/// An array that holds the substrings of another holds, as its elements, the substrings of the
/// elements of the other, also where both are dictionaries.
pub proof fn law_elementwise(made: Array, array: Array, start: int, length: Option<u64>)
    requires
        array.wf(),
        made.is_substring_of(array, start, length),
    ensures
        made.elements() == cut_elements(array.elements(), start, length),
    decreases array.depth(),
{
    match (made, array) {
        (Array::Dictionary(r), Array::Dictionary(a)) => {
            law_elementwise(r.spec_values(), a.spec_values(), start, length);
            law_elements_counted(a.spec_values());
            lemma_has_substrings(r.spec_values(), a.spec_values(), start, length);
        },
        _ => {},
    }
    assert(made.elements() =~= cut_elements(array.elements(), start, length));
}

/// Only an array with byte strings or texts has substrings.
proof fn lemma_has_substrings(made: Array, array: Array, start: int, length: Option<u64>)
    requires
        made.is_substring_of(array, start, length),
    ensures
        array.has_substrings(),
        made.has_substrings(),
    decreases array.depth(),
{
    match (made, array) {
        (Array::Dictionary(r), Array::Dictionary(a)) => {
            lemma_has_substrings(r.spec_values(), a.spec_values(), start, length);
        },
        _ => {},
    }
}

/// An array of byte strings or texts has as many elements as it counts.
pub proof fn law_elements_counted(array: Array)
    ensures
        array.has_substrings() ==> array.elements().len() == array.spec_len(),
{
}

/// Substrings are as many as the elements they are taken of, null where those are, and nested in as
/// many dictionaries.
pub proof fn law_shape_kept(made: Array, array: Array, start: int, length: Option<u64>)
    requires
        array.wf(),
        made.is_substring_of(array, start, length),
    ensures
        made.spec_len() == array.spec_len(),
        made.depth() == array.depth(),
        made.elements().len() == array.elements().len(),
        forall|i: int|
            0 <= i < array.elements().len() ==> (#[trigger] made.elements()[i] is None
                <==> array.elements()[i] is None),
    decreases array.depth(),
{
    law_elementwise(made, array, start, length);
    match (made, array) {
        (Array::Dictionary(r), Array::Dictionary(a)) => {
            law_shape_kept(r.spec_values(), a.spec_values(), start, length);
        },
        _ => {},
    }
}

/// Substrings of substrings are substrings: two starts that are not negative add up.
pub proof fn law_two_calls(
    array: Array,
    once: Array,
    twice: Array,
    first: int,
    second: int,
    length: Option<u64>,
)
    requires
        array.wf(),
        once.wf(),
        0 <= first,
        0 <= second,
        once.is_substring_of(array, first, None),
        twice.is_substring_of(once, second, length),
    ensures
        twice.elements() == cut_elements(array.elements(), first + second, length),
{
    law_elementwise(once, array, first, None);
    law_elementwise(twice, once, second, length);
    let elements = array.elements();
    assert forall|i: int| 0 <= i < elements.len() implies #[trigger] twice.elements()[i]
        == cut_elements(elements, first + second, length)[i] by {
        if let Some(s) = elements[i] {
            law_starts_add_up(s, first, second, length);
        }
    }
    assert(twice.elements() =~= cut_elements(elements, first + second, length));
}

/// Arrays of other types fail, whatever is asked for, and always in the same way.
pub proof fn law_unsupported_fails(
    array: Array,
    start: int,
    length: Option<u64>,
    other_start: int,
    other_length: Option<u64>,
)
    requires
        !array.has_substrings(),
    ensures
        array.failure(start, length) is Some,
        array.failure(start, length) == array.failure(other_start, other_length),
    decreases array.depth(),
{
    match array {
        Array::Dictionary(d) => {
            law_unsupported_fails(d.spec_values(), start, length, other_start, other_length);
        },
        _ => {},
    }
}

proof fn lemma_first_bad_cut<O: OffsetSizeTrait>(
    array: GenericStringArray<O>,
    from: int,
    start: int,
    length: Option<u64>,
)
    requires
        0 <= from,
    ensures
        match array.first_bad_cut(from, start, length) {
            None => forall|i: int|
                from <= i < array.spec_layout().spec_len() ==> #[trigger] array.bad_cut(
                    i,
                    start,
                    length,
                ) is None,
            Some(at) => exists|i: int|
                {
                    &&& from <= i < array.spec_layout().spec_len()
                    &&& #[trigger] array.bad_cut(i, start, length) == Some(at)
                    &&& forall|k: int|
                        from <= k < i ==> #[trigger] array.bad_cut(k, start, length) is None
                },
        },
    decreases array.spec_layout().spec_len() - from,
{
    if from < array.spec_layout().spec_len() {
        if array.bad_cut(from, start, length) is None {
            lemma_first_bad_cut(array, from + 1, start, length);
            if let Some(at) = array.first_bad_cut(from + 1, start, length) {
                let i = choose|i: int|
                    {
                        &&& from + 1 <= i < array.spec_layout().spec_len()
                        &&& #[trigger] array.bad_cut(i, start, length) == Some(at)
                        &&& forall|k: int|
                            from + 1 <= k < i ==> #[trigger] array.bad_cut(k, start, length)
                                is None
                    };
                assert(array.bad_cut(i, start, length) == Some(at));
                assert(forall|k: int|
                    from <= k < i ==> #[trigger] array.bad_cut(k, start, length) is None);
            }
        } else {
            assert(array.bad_cut(from, start, length) is Some);
        }
    }
}

/// A string array is refused if and only if one of its slots would be cut inside a character, and
/// then for the first such slot.
pub proof fn law_first_bad_cut<O: OffsetSizeTrait>(
    array: GenericStringArray<O>,
    start: int,
    length: Option<u64>,
)
    ensures
        match array.first_bad_cut(0, start, length) {
            None => forall|i: int|
                0 <= i < array.spec_layout().spec_len() ==> #[trigger] array.bad_cut(
                    i,
                    start,
                    length,
                ) is None,
            Some(at) => exists|i: int|
                {
                    &&& 0 <= i < array.spec_layout().spec_len()
                    &&& #[trigger] array.bad_cut(i, start, length) == Some(at)
                    &&& forall|k: int|
                        0 <= k < i ==> #[trigger] array.bad_cut(k, start, length) is None
                },
        },
{
    lemma_first_bad_cut(array, 0, start, length);
}

proof fn lemma_slot_is_text<O: OffsetSizeTrait>(array: GenericStringArray<O>, i: int)
    requires
        array.wf(),
        0 <= i < array.spec_layout().spec_len(),
    ensures
        valid_utf8(array.spec_layout().slot(array.bytes(), i)),
{
    let layout = array.spec_layout();
    let bytes = array.bytes();
    let first = layout.bound(i);
    let last = layout.bound(i + 1);
    encode_utf8_valid_utf8(array.chars());
    assert(first <= last <= layout.bound(layout.spec_len() as int));
    lemma_boundary_of_tail(bytes, first, last);
    let tail = bytes.subrange(first, bytes.len() as int);
    valid_utf8_split(bytes, first);
    valid_utf8_split(tail, last - first);
    assert(tail.subrange(0, last - first) =~= layout.slot(bytes, i));
}

/// Each element of a string array is text: no element begins or ends inside a character.
pub proof fn law_elements_are_text<O: OffsetSizeTrait>(array: GenericStringArray<O>, i: int)
    requires
        array.wf(),
        0 <= i < array@.len(),
    ensures
        array@[i] matches Some(s) ==> valid_utf8(s),
{
    lemma_slot_is_text(array, i);
}

/// A place in a slot of a string array is a character boundary of the value buffer if and only if
/// it is one of the text in the slot.
proof fn lemma_boundary_of_slot<O: OffsetSizeTrait>(array: GenericStringArray<O>, i: int, k: int)
    requires
        array.wf(),
        0 <= i < array.spec_layout().spec_len(),
        0 <= k <= array.spec_layout().width(i),
    ensures
        is_char_boundary(array.bytes(), array.spec_layout().bound(i) + k) <==> is_char_boundary(
            array.spec_layout().slot(array.bytes(), i),
            k,
        ),
{
    let layout = array.spec_layout();
    let bytes = array.bytes();
    let slot = layout.slot(bytes, i);
    let first = layout.bound(i);
    let last = layout.bound(i + 1);
    encode_utf8_valid_utf8(array.chars());
    assert(first <= last <= layout.bound(layout.spec_len() as int));
    lemma_slot_is_text(array, i);
    if k == last - first {
        is_char_boundary_start_end_of_seq(slot);
    } else {
        is_char_boundary_iff_not_is_continuation_byte(slot, k);
        is_char_boundary_iff_not_is_continuation_byte(bytes, first + k);
    }
}

/// Whether a slot of a string array is refused depends on its own text alone: both ends of the
/// substring have to be character boundaries of it.
pub proof fn law_bad_cut_in_slot<O: OffsetSizeTrait>(
    array: GenericStringArray<O>,
    i: int,
    start: int,
    length: Option<u64>,
)
    requires
        array.wf(),
        0 <= i < array.spec_layout().spec_len(),
    ensures
        ({
            let slot = array.spec_layout().slot(array.bytes(), i);
            array.bad_cut(i, start, length) is None <==> {
                &&& is_char_boundary(slot, cut_start(slot.len() as int, start))
                &&& is_char_boundary(slot, cut_end(slot.len() as int, start, length))
            }
        }),
{
    let layout = array.spec_layout();
    let slot = layout.slot(array.bytes(), i);
    let n = layout.width(i);
    assert(0 <= layout.bound(i) <= layout.bound(i + 1));
    assert(layout.bound(i + 1) <= layout.bound(layout.spec_len() as int));
    assert(slot.len() == n);
    lemma_slot_is_text(array, i);
    is_char_boundary_start_end_of_seq(slot);
    lemma_boundary_of_slot(array, i, cut_start(n, start));
    lemma_boundary_of_slot(array, i, cut_end(n, start, length));
}

/// Whole elements are never refused.
pub proof fn law_whole_elements_succeed(array: Array)
    requires
        array.has_substrings(),
    ensures
        array.failure(0, None) is None,
    decreases array.depth(),
{
    match array {
        Array::Utf8(a) => law_first_bad_cut(a, 0, None),
        Array::LargeUtf8(a) => law_first_bad_cut(a, 0, None),
        Array::Dictionary(d) => law_whole_elements_succeed(d.spec_values()),
        _ => {},
    }
}

/// Whether all texts of an array are made of characters of one byte.
pub open spec fn only_ascii(array: Array) -> bool
    decreases array.depth(),
{
    match array {
        Array::Utf8(a) => forall|k: int|
            0 <= k < a.bytes().len() ==> #[trigger] a.bytes()[k] < 0x80,
        Array::LargeUtf8(a) => forall|k: int|
            0 <= k < a.bytes().len() ==> #[trigger] a.bytes()[k] < 0x80,
        Array::Dictionary(d) => only_ascii(d.spec_values()),
        _ => true,
    }
}

proof fn lemma_ascii_uncut<O: OffsetSizeTrait>(
    array: GenericStringArray<O>,
    start: int,
    length: Option<u64>,
)
    requires
        array.wf(),
        forall|k: int| 0 <= k < array.bytes().len() ==> #[trigger] array.bytes()[k] < 0x80,
    ensures
        array.first_bad_cut(0, start, length) is None,
{
    let layout = array.spec_layout();
    let bytes = array.bytes();
    encode_utf8_valid_utf8(array.chars());
    assert forall|at: int| 0 <= at <= bytes.len() implies #[trigger] is_char_boundary(
        bytes,
        at,
    ) by {
        if at == bytes.len() {
            is_char_boundary_start_end_of_seq(bytes);
        } else {
            is_char_boundary_iff_not_is_continuation_byte(bytes, at);
        }
    }
    assert forall|i: int| 0 <= i < layout.spec_len() implies #[trigger] array.bad_cut(
        i,
        start,
        length,
    ) is None by {
        assert(0 <= layout.bound(i) <= layout.bound(i + 1));
        assert(layout.bound(i + 1) <= layout.bound(layout.spec_len() as int));
    }
    law_first_bad_cut(array, start, length);
}

/// Text of characters of one byte can be cut anywhere.
pub proof fn law_ascii_succeeds(array: Array, start: int, length: Option<u64>)
    requires
        array.wf(),
        array.has_substrings(),
        only_ascii(array),
    ensures
        array.failure(start, length) is None,
    decreases array.depth(),
{
    match array {
        Array::Utf8(a) => lemma_ascii_uncut(a, start, length),
        Array::LargeUtf8(a) => lemma_ascii_uncut(a, start, length),
        Array::Dictionary(d) => law_ascii_succeeds(d.spec_values(), start, length),
        _ => {},
    }
}

} // verus!
