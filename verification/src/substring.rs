//! The substring kernel.

use crate::array::{Array, DictionaryArray};
use crate::binary::GenericBinaryArray;
use crate::cut::{cut, cut_bounds, cut_elements, cut_end, cut_start};
use crate::error::{boundary_error, boundary_message, unsupported_error, ArrowError};
use crate::fixed::FixedSizeBinaryArray;
use crate::layout::Layout;
use crate::offset::OffsetSizeTrait;
use crate::string::GenericStringArray;
use crate::text::{lemma_boundary_kept, lemma_encode_concat, str_between};
use vstd::arithmetic::mul::{
    lemma_mul_inequality, lemma_mul_is_distributive_add_other_way, lemma_mul_nonnegative,
};
use vstd::prelude::*;
use vstd::slice::slice_subrange;
use vstd::utf8::*;

verus! {

/// The number of bytes of the first `k` cuts.
spec fn total(cuts: Seq<(usize, usize)>, k: int) -> int
    decreases k,
{
    if k <= 0 {
        0
    } else {
        total(cuts, k - 1) + (cuts[k - 1].1 - cuts[k - 1].0)
    }
}

/// Whether each cut lies inside its slot.
spec fn cuts_inside<O: OffsetSizeTrait>(cuts: Seq<(usize, usize)>, layout: Layout<O>) -> bool {
    &&& cuts.len() == layout.spec_len()
    &&& forall|i: int|
        0 <= i < cuts.len() ==> layout.bound(i) <= (#[trigger] cuts[i]).0 <= cuts[i].1
            <= layout.bound(i + 1)
}

/// Whether the cuts are those that `start` and `length` ask for.
spec fn cuts_of<O: OffsetSizeTrait>(
    cuts: Seq<(usize, usize)>,
    layout: Layout<O>,
    start: int,
    length: Option<u64>,
) -> bool {
    &&& cuts.len() == layout.spec_len()
    &&& forall|i: int|
        0 <= i < cuts.len() ==> (#[trigger] cuts[i]).0 == layout.cut_first(i, start) && cuts[i].1
            == layout.cut_last(i, start, length)
}

/// Whether each cut lies inside a buffer of `size` bytes.
spec fn cuts_within(cuts: Seq<(usize, usize)>, size: int) -> bool {
    forall|i: int| 0 <= i < cuts.len() ==> (#[trigger] cuts[i]).0 <= cuts[i].1 <= size
}

proof fn lemma_total_grows(cuts: Seq<(usize, usize)>, size: int, i: int, j: int)
    requires
        cuts_within(cuts, size),
        0 <= i <= j <= cuts.len(),
    ensures
        0 <= total(cuts, i) <= total(cuts, j),
    decreases j,
{
    if j > 0 {
        assert(cuts[j - 1].0 <= cuts[j - 1].1);
        if i < j {
            lemma_total_grows(cuts, size, i, j - 1);
        } else {
            lemma_total_grows(cuts, size, j - 1, j - 1);
        }
    }
}

proof fn lemma_total_bounded<O: OffsetSizeTrait>(
    cuts: Seq<(usize, usize)>,
    layout: Layout<O>,
    i: int,
)
    requires
        layout.wf(),
        cuts_inside(cuts, layout),
        0 <= i <= cuts.len(),
    ensures
        cuts_within(cuts, layout.bound(cuts.len() as int)),
        0 <= total(cuts, i) <= layout.bound(i) <= usize::MAX,
        total(cuts, i) <= layout.bound(i) - layout.bound(0),
    decreases i,
{
    assert(0 <= layout.bound(0) <= layout.bound(i));
    assert forall|k: int| 0 <= k < cuts.len() implies (#[trigger] cuts[k]).0 <= cuts[k].1
        <= layout.bound(cuts.len() as int) by {
        assert(layout.bound(k + 1) <= layout.bound(cuts.len() as int));
    }
    if i > 0 {
        assert(cuts[i - 1].1 <= layout.bound(i));
        lemma_total_bounded(cuts, layout, i - 1);
    }
}

/// The cuts of all slots, null or not.
fn new_starts_ends<O: OffsetSizeTrait>(layout: &Layout<O>, start: i64, length: Option<u64>) -> (r:
    Vec<(usize, usize)>)
    requires
        layout.wf(),
    ensures
        cuts_of(r@, *layout, start as int, length),
        cuts_inside(r@, *layout),
{
    let len: usize = layout.len();
    let mut r: Vec<(usize, usize)> = Vec::with_capacity(len);
    let mut i: usize = 0;
    while i < len
        invariant
            layout.wf(),
            i <= len,
            len == layout.spec_len(),
            r@.len() == i,
            forall|k: int|
                0 <= k < i ==> (#[trigger] r@[k]).0 == layout.cut_first(k, start as int) && r@[k].1
                    == layout.cut_last(k, start as int, length),
            forall|k: int|
                0 <= k < i ==> layout.bound(k) <= (#[trigger] r@[k]).0 <= r@[k].1 <= layout.bound(
                    k + 1,
                ),
        decreases len - i,
    {
        let first: usize = layout.get_bound(i);
        let last: usize = layout.get_bound(i + 1);
        assert(layout.bound(i as int) <= layout.bound(i + 1));
        let (from, to) = cut_bounds(last - first, start, length);
        r.push((first + from, first + to));
        i += 1;
    }
    r
}

/// The offsets of an array whose elements are the cuts, back to back.
fn new_offsets<O: OffsetSizeTrait>(layout: &Layout<O>, cuts: &Vec<(usize, usize)>) -> (r: Vec<O>)
    requires
        layout.wf(),
        cuts_inside(cuts@, *layout),
    ensures
        r@.len() == cuts@.len() + 1,
        forall|i: int| 0 <= i < r@.len() ==> (#[trigger] r@[i]).value() == total(cuts@, i),
{
    let mut r: Vec<O> = Vec::with_capacity(cuts.len());
    let mut len_so_far: usize = 0;
    proof {
        layout.lemma_bound_at_most_max(0);
    }
    r.push(O::from_usize(0).unwrap());
    let mut i: usize = 0;
    while i < cuts.len()
        invariant
            layout.wf(),
            cuts_inside(cuts@, *layout),
            i <= cuts@.len(),
            r@.len() == i + 1,
            len_so_far == total(cuts@, i as int),
            forall|k: int| 0 <= k <= i ==> (#[trigger] r@[k]).value() == total(cuts@, k),
        decreases cuts@.len() - i,
    {
        let (from, to) = cuts[i];
        proof {
            assert(from <= to);
            lemma_total_bounded(cuts@, *layout, i + 1);
            layout.lemma_bound_at_most_max(i + 1);
        }
        len_so_far += to - from;
        r.push(O::from_usize(len_so_far).unwrap());
        i += 1;
    }
    r
}

/// The bytes of the cuts, back to back.
fn new_values(data: &[u8], cuts: &Vec<(usize, usize)>) -> (r: Vec<u8>)
    requires
        cuts_within(cuts@, data@.len() as int),
    ensures
        r@.len() == total(cuts@, cuts@.len() as int),
        forall|i: int|
            0 <= i < cuts@.len() ==> #[trigger] r@.subrange(total(cuts@, i), total(cuts@, i + 1))
                == data@.subrange(cuts@[i].0 as int, cuts@[i].1 as int),
{
    let mut r: Vec<u8> = Vec::new();
    let mut i: usize = 0;
    while i < cuts.len()
        invariant
            cuts_within(cuts@, data@.len() as int),
            i <= cuts@.len(),
            r@.len() == total(cuts@, i as int),
            forall|k: int|
                0 <= k < i ==> #[trigger] r@.subrange(total(cuts@, k), total(cuts@, k + 1))
                    == data@.subrange(cuts@[k].0 as int, cuts@[k].1 as int),
        decreases cuts@.len() - i,
    {
        let (from, to) = cuts[i];
        let ghost before = r@;
        let piece = slice_subrange(data, from, to);
        r.extend_from_slice(piece);
        proof {
            assert(r@ =~= before + piece@);
            assert forall|k: int| 0 <= k < i + 1 implies #[trigger] r@.subrange(
                total(cuts@, k),
                total(cuts@, k + 1),
            ) == data@.subrange(cuts@[k].0 as int, cuts@[k].1 as int) by {
                let size = data@.len() as int;
                lemma_total_grows(cuts@, size, k, i as int);
                if k < i {
                    lemma_total_grows(cuts@, size, k, k + 1);
                    lemma_total_grows(cuts@, size, k + 1, i as int);
                    assert(r@.subrange(total(cuts@, k), total(cuts@, k + 1)) =~= before.subrange(
                        total(cuts@, k),
                        total(cuts@, k + 1),
                    ));
                } else {
                    assert(r@.subrange(total(cuts@, k), total(cuts@, k + 1)) =~= piece@);
                }
            }
        }
        i += 1;
    }
    r
}

/// Layout and bytes that were made of the cuts of another array hold its substrings.
proof fn lemma_holds_cuts<O: OffsetSizeTrait>(
    made: Layout<O>,
    made_bytes: Seq<u8>,
    layout: Layout<O>,
    bytes: Seq<u8>,
    cuts: Seq<(usize, usize)>,
    start: int,
    length: Option<u64>,
)
    requires
        layout.wf(),
        layout.bound(layout.spec_len() as int) <= bytes.len(),
        cuts_of(cuts, layout, start, length),
        cuts_inside(cuts, layout),
        made.spec_len() == layout.spec_len(),
        made.unsliced(),
        forall|i: int| 0 <= i <= cuts.len() ==> #[trigger] made.bound(i) == total(cuts, i),
        made_bytes.len() == total(cuts, cuts.len() as int),
        forall|i: int|
            0 <= i < cuts.len() ==> #[trigger] made_bytes.subrange(total(cuts, i), total(cuts, i + 1))
                == bytes.subrange(cuts[i].0 as int, cuts[i].1 as int),
        made.nullable() == layout.nullable(),
        forall|i: int| 0 <= i < cuts.len() ==> #[trigger] made.valid(i) == layout.valid(i),
    ensures
        made.holds_cuts(made_bytes, layout, bytes, start, length),
{
    assert(made.bound(0) == 0);
    assert forall|i: int| 0 <= i < cuts.len() implies #[trigger] made.slot(made_bytes, i) == cut(
        layout.slot(bytes, i),
        start,
        length,
    ) by {
        let c = cuts[i];
        assert(made_bytes.subrange(total(cuts, i), total(cuts, i + 1)) == bytes.subrange(
            c.0 as int,
            c.1 as int,
        ));
        assert(layout.bound(i) <= layout.bound(i + 1) <= layout.bound(cuts.len() as int));
        assert(bytes.subrange(c.0 as int, c.1 as int) =~= cut(
            layout.slot(bytes, i),
            start,
            length,
        ));
    }
}

/// The layout of an array whose elements are the cuts, null where those of `layout` are.
fn new_layout<O: OffsetSizeTrait>(layout: &Layout<O>, cuts: &Vec<(usize, usize)>) -> (r: Layout<O>)
    requires
        layout.wf(),
        cuts_inside(cuts@, *layout),
    ensures
        r.wf(),
        r.spec_len() == layout.spec_len(),
        r.unsliced(),
        forall|i: int| 0 <= i <= cuts@.len() ==> #[trigger] r.bound(i) == total(cuts@, i),
        r.nullable() == layout.nullable(),
        forall|i: int| 0 <= i < cuts@.len() ==> #[trigger] r.valid(i) == layout.valid(i),
{
    let offsets = new_offsets(layout, cuts);
    let validity = layout.own_validity();
    proof {
        assert forall|i: int, j: int| 0 <= i <= j < offsets@.len() implies 0 <= (
        #[trigger] offsets@[i]).value() <= (#[trigger] offsets@[j]).value() <= usize::MAX by {
            lemma_total_bounded(cuts@, *layout, j);
            lemma_total_grows(cuts@, layout.bound(cuts@.len() as int), i, j);
        }
    }
    Layout::new_unsliced(offsets, validity)
}

/// The substrings of all elements of a binary array.
pub fn binary_substring<O: OffsetSizeTrait>(
    array: &GenericBinaryArray<O>,
    start: i64,
    length: Option<u64>,
) -> (r: GenericBinaryArray<O>)
    requires
        array.wf(),
    ensures
        r.wf(),
        r.is_substring_of(*array, start as int, length),
        r.spec_layout().holds_cuts(
            r.bytes(),
            array.spec_layout(),
            array.bytes(),
            start as int,
            length,
        ),
        r@ == cut_elements(array@, start as int, length),
{
    let layout = array.layout();
    let cuts = new_starts_ends(layout, start, length);
    let made = new_layout(layout, &cuts);
    proof {
        lemma_total_bounded(cuts@, *layout, 0);
    }
    let values = new_values(array.value_data(), &cuts);
    proof {
        lemma_holds_cuts(
            made,
            values@,
            *layout,
            array.bytes(),
            cuts@,
            start as int,
            length,
        );
    }
    GenericBinaryArray::from_parts(made, values)
}

/// The substrings of all elements of an array of byte strings of one length.
pub fn fixed_size_binary_substring(
    array: &FixedSizeBinaryArray,
    start: i64,
    length: Option<u64>,
) -> (r: FixedSizeBinaryArray)
    requires
        array.wf(),
    ensures
        r.wf(),
        r.is_substring_of(*array, start as int, length),
        r.spec_len() == array.spec_len(),
        r.width() == cut_end(array.width(), start as int, length) - cut_start(
            array.width(),
            start as int,
        ),
        forall|i: int|
            0 <= i < array.spec_len() ==> #[trigger] r.slot(i) == cut(
                array.slot(i),
                start as int,
                length,
            ),
        forall|i: int| 0 <= i < array.spec_len() ==> #[trigger] r.valid(i) == array.valid(i),
        r@ == cut_elements(array@, start as int, length),
{
    let old_len: i32 = array.value_length();
    let (new_start, new_end) = cut_bounds(old_len as usize, start, length);
    let new_len: usize = new_end - new_start;
    let num_of_elements: usize = array.len();
    let data = array.value_data();
    let mut values: Vec<u8> = Vec::new();
    let mut i: usize = 0;
    while i < num_of_elements
        invariant
            array.wf(),
            i <= num_of_elements,
            num_of_elements == array.spec_len(),
            data@ == array.bytes(),
            new_start + new_len == new_end,
            new_end <= array.width(),
            values@.len() == i * new_len,
            forall|k: int|
                0 <= k < i ==> #[trigger] values@.subrange(k * new_len, k * new_len + new_len)
                    == array.slot(k).subrange(new_start as int, new_end as int),
        decreases num_of_elements - i,
    {
        let first: usize = array.value_offset(i);
        let ghost before = values@;
        proof {
            array.lemma_slot_inside(i as int);
            assert(array.first(i as int) + array.width() <= data.len());
        }
        let piece = slice_subrange(data, first + new_start, first + new_end);
        values.extend_from_slice(piece);
        proof {
            assert(values@ =~= before + piece@);
            assert(piece@ =~= array.slot(i as int).subrange(new_start as int, new_end as int));
            lemma_mul_is_distributive_add_other_way(new_len as int, i as int, 1);
            assert forall|k: int| 0 <= k < i + 1 implies #[trigger] values@.subrange(
                k * new_len,
                k * new_len + new_len,
            ) == array.slot(k).subrange(new_start as int, new_end as int) by {
                lemma_mul_nonnegative(k, new_len as int);
                if k < i {
                    lemma_mul_inequality(k + 1, i as int, new_len as int);
                    lemma_mul_is_distributive_add_other_way(new_len as int, k, 1);
                    assert(values@.subrange(k * new_len, k * new_len + new_len)
                        =~= before.subrange(k * new_len, k * new_len + new_len));
                } else {
                    assert(values@.subrange(k * new_len, k * new_len + new_len) =~= piece@);
                }
            }
        }
        i += 1;
    }
    let validity = array.own_validity();
    let r = FixedSizeBinaryArray::new_unsliced(new_len as i32, values, validity, num_of_elements);
    proof {
        assert forall|k: int| 0 <= k < r.spec_len() implies #[trigger] r.slot(k) == cut(
            array.slot(k),
            start as int,
            length,
        ) by {
            array.lemma_slot_inside(k);
            assert(r.slot(k) == r.bytes().subrange(k * new_len, k * new_len + new_len));
        }
    }
    r
}

/// Fails unless `offset` is at a character boundary.
fn check_char_boundary(data: &str, offset: usize) -> (r: Result<(), ArrowError>)
    ensures
        r is Ok <==> is_char_boundary(encode_utf8(data@), offset as int),
        r matches Err(e) ==> e matches ArrowError::ComputeError(m) && m@ == boundary_message(
            offset as nat,
        ),
{
    if data.is_char_boundary(offset) {
        Ok(())
    } else {
        Err(boundary_error(offset))
    }
}

/// Fails at the first cut that falls inside a character.
fn check_cuts<O: OffsetSizeTrait>(
    array: &GenericStringArray<O>,
    cuts: &Vec<(usize, usize)>,
    start: i64,
    length: Option<u64>,
) -> (r: Result<(), ArrowError>)
    requires
        array.wf(),
        cuts_of(cuts@, array.spec_layout(), start as int, length),
    ensures
        match array.first_bad_cut(0, start as int, length) {
            None => r is Ok,
            Some(at) => r matches Err(ArrowError::ComputeError(m)) && m@ == boundary_message(at),
        },
{
    let data = array.value_data();
    let mut i: usize = 0;
    while i < cuts.len()
        invariant
            array.wf(),
            data@ == array.chars(),
            cuts_of(cuts@, array.spec_layout(), start as int, length),
            i <= cuts@.len(),
            array.first_bad_cut(0, start as int, length) == array.first_bad_cut(
                i as int,
                start as int,
                length,
            ),
        decreases cuts@.len() - i,
    {
        let (first, last) = cuts[i];
        if start != 0 {
            match check_char_boundary(data, first) {
                Ok(()) => {},
                Err(e) => {
                    return Err(e);
                },
            }
        }
        if length.is_some() {
            match check_char_boundary(data, last) {
                Ok(()) => {},
                Err(e) => {
                    return Err(e);
                },
            }
        }
        i += 1;
    }
    Ok(())
}

/// Where no cut falls inside a character, all of them are at boundaries.
proof fn lemma_no_bad_cut<O: OffsetSizeTrait>(
    array: GenericStringArray<O>,
    from: int,
    i: int,
    start: int,
    length: Option<u64>,
)
    requires
        array.wf(),
        array.first_bad_cut(from, start, length) is None,
        0 <= from <= i < array.spec_layout().spec_len(),
    ensures
        is_char_boundary(array.bytes(), array.spec_layout().cut_first(i, start)),
        is_char_boundary(array.bytes(), array.spec_layout().cut_last(i, start, length)),
    decreases i - from,
{
    if from < i {
        lemma_no_bad_cut(array, from + 1, i, start, length);
    } else {
        assert(array.spec_layout().bound(i) <= array.spec_layout().bound(i + 1));
    }
}

/// The text of the cuts, back to back.
fn new_text(data: &str, cuts: &Vec<(usize, usize)>) -> (r: String)
    requires
        cuts_within(cuts@, encode_utf8(data@).len() as int),
        forall|i: int|
            0 <= i < cuts@.len() ==> is_char_boundary(
                encode_utf8(data@),
                (#[trigger] cuts@[i]).0 as int,
            ) && is_char_boundary(encode_utf8(data@), cuts@[i].1 as int),
    ensures
        encode_utf8(r@).len() == total(cuts@, cuts@.len() as int),
        forall|i: int|
            0 <= i < cuts@.len() ==> #[trigger] encode_utf8(r@).subrange(
                total(cuts@, i),
                total(cuts@, i + 1),
            ) == encode_utf8(data@).subrange(cuts@[i].0 as int, cuts@[i].1 as int),
        forall|i: int|
            0 <= i <= cuts@.len() ==> is_char_boundary(encode_utf8(r@), #[trigger] total(cuts@, i)),
{
    let mut r = String::new();
    let ghost bytes = encode_utf8(data@);
    let mut i: usize = 0;
    while i < cuts.len()
        invariant
            bytes == encode_utf8(data@),
            cuts_within(cuts@, bytes.len() as int),
            forall|k: int|
                0 <= k < cuts@.len() ==> is_char_boundary(bytes, (#[trigger] cuts@[k]).0 as int)
                    && is_char_boundary(bytes, cuts@[k].1 as int),
            i <= cuts@.len(),
            encode_utf8(r@).len() == total(cuts@, i as int),
            forall|k: int|
                0 <= k < i ==> #[trigger] encode_utf8(r@).subrange(
                    total(cuts@, k),
                    total(cuts@, k + 1),
                ) == bytes.subrange(cuts@[k].0 as int, cuts@[k].1 as int),
            forall|k: int|
                0 <= k <= i ==> is_char_boundary(encode_utf8(r@), #[trigger] total(cuts@, k)),
        decreases cuts@.len() - i,
    {
        let (first, last) = cuts[i];
        let ghost before = encode_utf8(r@);
        let ghost before_chars = r@;
        let piece = str_between(data, first, last);
        let ghost added = encode_utf8(piece@);
        r.append(piece);
        proof {
            let after = encode_utf8(r@);
            let size = bytes.len() as int;
            lemma_encode_concat(before_chars, piece@);
            encode_utf8_valid_utf8(before_chars);
            encode_utf8_valid_utf8(piece@);
            encode_utf8_valid_utf8(r@);
            assert(after == before + added);
            assert forall|k: int| 0 <= k < i + 1 implies #[trigger] after.subrange(
                total(cuts@, k),
                total(cuts@, k + 1),
            ) == bytes.subrange(cuts@[k].0 as int, cuts@[k].1 as int) by {
                lemma_total_grows(cuts@, size, k, i as int);
                if k < i {
                    lemma_total_grows(cuts@, size, k, k + 1);
                    lemma_total_grows(cuts@, size, k + 1, i as int);
                    assert(after.subrange(total(cuts@, k), total(cuts@, k + 1))
                        =~= before.subrange(total(cuts@, k), total(cuts@, k + 1)));
                } else {
                    assert(after.subrange(total(cuts@, k), total(cuts@, k + 1)) =~= added);
                }
            }
            assert forall|k: int| 0 <= k <= i + 1 implies is_char_boundary(
                after,
                #[trigger] total(cuts@, k),
            ) by {
                if k <= i {
                    lemma_boundary_kept(before, added, total(cuts@, k));
                } else {
                    is_char_boundary_start_end_of_seq(after);
                }
            }
        }
        i += 1;
    }
    r
}

/// The substrings of all elements of a string array, counted in bytes. Fails where a substring of
/// a slot, null or not, would begin or end inside a character.
pub fn utf8_substring<O: OffsetSizeTrait>(
    array: &GenericStringArray<O>,
    start: i64,
    length: Option<u64>,
) -> (r: Result<GenericStringArray<O>, ArrowError>)
    requires
        array.wf(),
    ensures
        match array.first_bad_cut(0, start as int, length) {
            None => {
                &&& r matches Ok(a)
                &&& a.wf()
                &&& a.is_substring_of(*array, start as int, length)
                &&& a.spec_layout().holds_cuts(
                    a.bytes(),
                    array.spec_layout(),
                    array.bytes(),
                    start as int,
                    length,
                )
                &&& a@ == cut_elements(array@, start as int, length)
            },
            Some(at) => r matches Err(ArrowError::ComputeError(m)) && m@ == boundary_message(at),
        },
{
    let layout = array.layout();
    let cuts = new_starts_ends(layout, start, length);
    match check_cuts(array, &cuts, start, length) {
        Ok(()) => {},
        Err(e) => {
            return Err(e);
        },
    }
    let made = new_layout(layout, &cuts);
    proof {
        lemma_total_bounded(cuts@, *layout, 0);
        assert forall|i: int| 0 <= i < cuts@.len() implies is_char_boundary(
            array.bytes(),
            (#[trigger] cuts@[i]).0 as int,
        ) && is_char_boundary(array.bytes(), cuts@[i].1 as int) by {
            lemma_no_bad_cut(*array, 0, i, start as int, length);
        }
    }
    let values = new_text(array.value_data(), &cuts);
    proof {
        lemma_holds_cuts(
            made,
            encode_utf8(values@),
            *layout,
            array.bytes(),
            cuts@,
            start as int,
            length,
        );
    }
    Ok(GenericStringArray::from_parts(made, values))
}

/// Returns an array with the substrings of all the elements of `array`.
///
/// * `start`: where all substrings begin. If it is not negative, it counts from the start of the
///   element, otherwise from its end.
/// * `length`: how long all substrings are. Without it they reach to the end of the element.
///
/// Both are counted in bytes, not in characters, and both stop at the ends of an element. A null
/// element has a null substring.
///
/// Fails if the elements are neither byte strings nor texts, nor a dictionary of such, and if the
/// substring of a text begins or ends inside a character.
pub fn substring(array: &Array, start: i64, length: Option<u64>) -> (r: Result<Array, ArrowError>)
    requires
        array.wf(),
    ensures
        match array.failure(start as int, length) {
            None => {
                &&& r matches Ok(a)
                &&& a.wf()
                &&& a.is_substring_of(*array, start as int, length)
                &&& a.elements() == cut_elements(array.elements(), start as int, length)
            },
            Some(message) => r matches Err(ArrowError::ComputeError(m)) && m@ == message,
        },
    decreases array.depth(),
{
    match array {
        Array::Dictionary(dict) => {
            let values = match substring(dict.values(), start, length) {
                Ok(values) => values,
                Err(e) => {
                    return Err(e);
                },
            };
            match DictionaryArray::try_new(dict.keys().copy(), values) {
                Ok(result) => Ok(Array::Dictionary(result)),
                Err(e) => Err(e),
            }
        },
        Array::LargeBinary(a) => Ok(Array::LargeBinary(binary_substring(a, start, length))),
        Array::Binary(a) => Ok(Array::Binary(binary_substring(a, start, length))),
        Array::FixedSizeBinary(a) => Ok(
            Array::FixedSizeBinary(fixed_size_binary_substring(a, start, length)),
        ),
        Array::LargeUtf8(a) => match utf8_substring(a, start, length) {
            Ok(result) => Ok(Array::LargeUtf8(result)),
            Err(e) => Err(e),
        },
        Array::Utf8(a) => match utf8_substring(a, start, length) {
            Ok(result) => Ok(Array::Utf8(result)),
            Err(e) => Err(e),
        },
        Array::Integer(a) => Err(unsupported_error(a.integer_type().name())),
        Array::Other(a) => Err(unsupported_error(a.data_type())),
    }
}

} // verus!
