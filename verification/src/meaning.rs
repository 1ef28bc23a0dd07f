//! What is stated of arrays and their substrings elsewhere, said of bits, bytes and numbers.

use crate::array::{Array, DictionaryArray};
use crate::binary::GenericBinaryArray;
use crate::bitmap::bits_of;
use crate::cut::{cut, cut_elements, cut_end, cut_start};
use crate::error::{boundary_message, decimal, unsupported_message};
use crate::fixed::FixedSizeBinaryArray;
use crate::integer::{Integer, IntegerArray};
use crate::laws::{law_bad_cut_in_slot, law_first_bad_cut};
use crate::layout::Layout;
use crate::offset::OffsetSizeTrait;
use crate::string::{GenericStringArray, LargeStringArray, StringArray};
use vstd::arithmetic::mul::lemma_mul_is_distributive_add_other_way;
use vstd::prelude::*;
use vstd::utf8::*;

verus! {

/// Each byte is the sum of the powers of two of its bits, and its bits follow those of the bytes
/// before it.
pub proof fn law_bits_make_up_bytes(bytes: Seq<u8>, j: int)
    ensures
        bits_of(bytes).len() == 8 * bytes.len(),
        0 <= j < bytes.len() ==> ({
            let bits = bits_of(bytes);
            bytes[j] == (if bits[8 * j] {
                1int
            } else {
                0
            }) + (if bits[8 * j + 1] {
                2int
            } else {
                0
            }) + (if bits[8 * j + 2] {
                4int
            } else {
                0
            }) + (if bits[8 * j + 3] {
                8int
            } else {
                0
            }) + (if bits[8 * j + 4] {
                16int
            } else {
                0
            }) + (if bits[8 * j + 5] {
                32int
            } else {
                0
            }) + (if bits[8 * j + 6] {
                64int
            } else {
                0
            }) + (if bits[8 * j + 7] {
                128int
            } else {
                0
            })
        }),
{
    let b: u8 = bytes[j];
    assert(b == ((b >> 0u8) & 1u8) + 2 * ((b >> 1u8) & 1u8) + 4 * ((b >> 2u8) & 1u8) + 8 * ((b
        >> 3u8) & 1u8) + 16 * ((b >> 4u8) & 1u8) + 32 * ((b >> 5u8) & 1u8) + 64 * ((b >> 6u8) & 1u8)
        + 128 * ((b >> 7u8) & 1u8)) by (bit_vector);
    assert(forall|k: u8| #[trigger] ((b >> k) & 1u8) == 0u8 || (b >> k) & 1u8 == 1u8)
        by (bit_vector);
}

/// Offsets are the numbers they are written as, and reach as far as their widths do.
pub proof fn law_offsets_are_numbers(narrow: i32, wide: i64)
    ensures
        narrow.value() == narrow,
        wide.value() == wide,
        <i32 as OffsetSizeTrait>::max_value() == 0x7fff_ffff,
        <i64 as OffsetSizeTrait>::max_value() == 0x7fff_ffff_ffff_ffff,
{
}

/// Integers are the numbers they are written as.
pub proof fn law_integers_are_numbers(
    a: i8,
    b: i16,
    c: i32,
    d: i64,
    e: u8,
    f: u16,
    g: u32,
    h: u64,
)
    ensures
        a.number() == a,
        b.number() == b,
        c.number() == c,
        d.number() == d,
        e.number() == e,
        f.number() == f,
        g.number() == g,
        h.number() == h,
{
}

/// A number below ten is one digit, and each further digit stands for the rest of a division by
/// ten.
pub proof fn law_decimal_digits(n: nat, d: nat)
    requires
        d < 10,
    ensures
        decimal(d) == seq![(48 + d) as char],
        n > 0 ==> decimal(10 * n + d) == decimal(n).push((48 + d) as char),
{
    assert((10 * n + d) / 10 == n && (10 * n + d) % 10 == d);
}

/// A message says where a text would be cut, or which type was asked to be cut.
pub proof fn law_messages(offset: nat, name: Seq<char>)
    ensures
        boundary_message(offset) == "The offset "@ + decimal(offset)
            + " is at an invalid utf-8 boundary."@,
        unsupported_message(name) == "substring does not support type "@ + name,
{
}

/// Both ends of a substring: a start that is not negative is an index, unless the string ends
/// before it; a negative one is a distance from the end, unless the string is shorter; and both
/// ends are as far apart as the length says, unless the string ends before.
pub proof fn law_ends_of_a_cut(n: int, start: int, length: Option<u64>)
    requires
        0 <= n,
    ensures
        0 <= cut_start(n, start) <= cut_end(n, start, length) <= n,
        start >= 0 ==> cut_start(n, start) == start || (cut_start(n, start) == n && start >= n),
        start < 0 ==> n - cut_start(n, start) == -start || (cut_start(n, start) == 0 && -start
            >= n),
        length is None ==> cut_end(n, start, length) == n,
        length matches Some(l) ==> cut_end(n, start, length) - cut_start(n, start) == l || (cut_end(
            n,
            start,
            length,
        ) == n && n - cut_start(n, start) <= l),
{
}

/// Counted from the front, byte `k` of a substring is byte `start + k` of the string, as long as
/// the string and the length go.
pub proof fn law_bytes_from_the_front(s: Seq<u8>, start: int, length: Option<u64>, k: int)
    requires
        0 <= start,
        0 <= k,
    ensures
        k < cut(s, start, length).len() <==> {
            &&& start + k < s.len()
            &&& length matches Some(l) ==> k < l
        },
        k < cut(s, start, length).len() ==> cut(s, start, length)[k] == s[start + k],
{
}

/// Counted from the back, byte `k` of a substring is the byte `back - k` places before the end of
/// the string. Where the string has fewer than `back` bytes, its substring begins with its first.
pub proof fn law_bytes_from_the_back(s: Seq<u8>, back: int, length: Option<u64>, k: int)
    requires
        0 < back,
        0 <= k,
    ensures
        back <= s.len() ==> (k < cut(s, -back, length).len() <==> {
            &&& k < back
            &&& length matches Some(l) ==> k < l
        }),
        back <= s.len() && k < cut(s, -back, length).len() ==> cut(s, -back, length)[k] == s[s.len()
            - back + k],
        back > s.len() ==> (k < cut(s, -back, length).len() <==> {
            &&& k < s.len()
            &&& length matches Some(l) ==> k < l
        }),
        back > s.len() && k < cut(s, -back, length).len() ==> cut(s, -back, length)[k] == s[k],
{
}

/// There is one substring for each element, a null for a null and bytes for bytes.
pub proof fn law_one_substring_each(
    elements: Seq<Option<Seq<u8>>>,
    start: int,
    length: Option<u64>,
    i: int,
)
    ensures
        cut_elements(elements, start, length).len() == elements.len(),
        0 <= i < elements.len() ==> match elements[i] {
            None => cut_elements(elements, start, length)[i] is None,
            Some(s) => {
                &&& cut_elements(elements, start, length)[i] matches Some(t)
                &&& t == cut(s, start, length)
            },
        },
{
}

/// The slots of a value buffer reach from bound to bound, and each element that is not null is
/// what its slot holds.
pub proof fn law_slots_between_bounds<O: OffsetSizeTrait>(layout: Layout<O>, bytes: Seq<u8>, i: int)
    ensures
        layout.slot(bytes, i) == bytes.subrange(layout.bound(i), layout.bound(i + 1)),
        layout.elements(bytes).len() == layout.spec_len(),
        0 <= i < layout.spec_len() && layout.valid(i) ==> layout.elements(bytes)[i] == Some(
            bytes.subrange(layout.bound(i), layout.bound(i + 1)),
        ),
        0 <= i < layout.spec_len() && !layout.valid(i) ==> layout.elements(bytes)[i] is None,
{
}

/// The elements of a binary array are those of its layout and bytes.
pub proof fn law_binary_elements<O: OffsetSizeTrait>(array: GenericBinaryArray<O>, i: int)
    ensures
        array@.len() == array.spec_layout().spec_len(),
        0 <= i < array.spec_layout().spec_len() ==> array@[i] == (if array.spec_layout().valid(i) {
            Some(
                array.bytes().subrange(
                    array.spec_layout().bound(i),
                    array.spec_layout().bound(i + 1),
                ),
            )
        } else {
            None
        }),
{
}

/// The elements of a string array are those of its layout and the encoding of its characters.
pub proof fn law_string_elements<O: OffsetSizeTrait>(array: GenericStringArray<O>, i: int)
    ensures
        array.bytes() == encode_utf8(array.chars()),
        array@.len() == array.spec_layout().spec_len(),
        0 <= i < array.spec_layout().spec_len() ==> array@[i] == (if array.spec_layout().valid(i) {
            Some(
                encode_utf8(array.chars()).subrange(
                    array.spec_layout().bound(i),
                    array.spec_layout().bound(i + 1),
                ),
            )
        } else {
            None
        }),
{
}

/// The elements of one length lie in line in the value buffer, from that of the array's offset
/// on: element `i` is the one that comes `offset + i` lengths after the front of the buffer.
pub proof fn law_fixed_slots_in_line(array: FixedSizeBinaryArray, i: int)
    ensures
        array.first(0) == array.spec_offset() * array.width(),
        array.first(i + 1) == array.first(i) + array.width(),
        array.slot(i) == array.bytes().subrange(array.first(i), array.first(i + 1)),
        array.slot(i) == array.bytes().subrange(
            (array.spec_offset() + i) * array.width(),
            (array.spec_offset() + i + 1) * array.width(),
        ),
        array@.len() == array.spec_len(),
        0 <= i < array.spec_len() && array.valid(i) ==> array@[i] == Some(array.slot(i)),
        0 <= i < array.spec_len() && !array.valid(i) ==> array@[i] is None,
{
    lemma_mul_is_distributive_add_other_way(array.width(), array.spec_offset() + i, 1);
}

/// Two slices of the same buffer that overlap agree on what they share: an element is the same,
/// whichever of the two it is read from.
pub proof fn law_fixed_slices_agree(
    array: FixedSizeBinaryArray,
    other: FixedSizeBinaryArray,
    i: int,
    k: int,
)
    requires
        array.wf(),
        other.wf(),
        array.bytes() == other.bytes(),
        array.width() == other.width(),
        0 <= i < array.spec_len(),
        0 <= k < other.spec_len(),
        array.spec_offset() + i == other.spec_offset() + k,
    ensures
        array.slot(i) == other.slot(k),
        array.first(i) == other.first(k),
{
}

/// An array of any type is well formed as soon as what it is made of is, and a dictionary as soon
/// as its keys are indices of its values.
pub proof fn law_well_formed(array: Array)
    ensures
        match array {
            Array::Binary(a) => array.wf() == a.wf(),
            Array::LargeBinary(a) => array.wf() == a.wf(),
            Array::FixedSizeBinary(a) => array.wf() == a.wf(),
            Array::Utf8(a) => array.wf() == a.wf(),
            Array::LargeUtf8(a) => array.wf() == a.wf(),
            Array::Dictionary(d) => array.wf() == {
                &&& forall|i: int|
                    0 <= i < d.spec_keys()@.len() ==> (#[trigger] d.spec_keys()@[i] matches Some(k)
                        ==> 0 <= k < d.spec_values().spec_len())
                &&& d.spec_values().wf()
            },
            Array::Integer(_) => array.wf(),
            Array::Other(_) => array.wf(),
        },
{
}

/// Only a dictionary is nested: once more than its values are.
pub proof fn law_nesting(array: Array)
    ensures
        match array {
            Array::Dictionary(d) => array.depth() == d.spec_values().depth() + 1,
            _ => array.depth() == 0,
        },
{
}

/// The elements of an array, and how many there are. A dictionary looks its elements up: where a
/// key is the index of a value, the element is that value.
pub proof fn law_elements_of_array(array: Array, i: int)
    ensures
        match array {
            Array::Binary(a) => array.elements() == a@ && array.spec_len() == a@.len(),
            Array::LargeBinary(a) => array.elements() == a@ && array.spec_len() == a@.len(),
            Array::FixedSizeBinary(a) => array.elements() == a@ && array.spec_len() == a@.len(),
            Array::Utf8(a) => array.elements() == a@ && array.spec_len() == a@.len(),
            Array::LargeUtf8(a) => array.elements() == a@ && array.spec_len() == a@.len(),
            Array::Dictionary(d) => {
                let keys = d.spec_keys()@;
                &&& array.spec_len() == keys.len()
                &&& array.elements().len() == keys.len()
                &&& 0 <= i < keys.len() ==> (keys[i] is None ==> array.elements()[i] is None)
                &&& 0 <= i < keys.len() ==> (keys[i] matches Some(k) ==> array.elements()[i]
                    == d.spec_values().elements()[k])
            },
            Array::Integer(a) => array.spec_len() == a@.len(),
            Array::Other(a) => array.spec_len() == a.spec_len(),
        },
{
}

/// The numbers of an array of integers.
pub proof fn law_numbers_of_array(array: IntegerArray, i: int)
    ensures
        match array {
            IntegerArray::Int8(v) => array@.len() == v@.len() && (0 <= i < v@.len() ==> match v@[i] {
                Some(k) => array@[i] == Some(k as int),
                None => array@[i] is None,
            }),
            IntegerArray::Int16(v) => array@.len() == v@.len() && (0 <= i < v@.len() ==> match v@[i] {
                Some(k) => array@[i] == Some(k as int),
                None => array@[i] is None,
            }),
            IntegerArray::Int32(v) => array@.len() == v@.len() && (0 <= i < v@.len() ==> match v@[i] {
                Some(k) => array@[i] == Some(k as int),
                None => array@[i] is None,
            }),
            IntegerArray::Int64(v) => array@.len() == v@.len() && (0 <= i < v@.len() ==> match v@[i] {
                Some(k) => array@[i] == Some(k as int),
                None => array@[i] is None,
            }),
            IntegerArray::UInt8(v) => array@.len() == v@.len() && (0 <= i < v@.len() ==> match v@[i] {
                Some(k) => array@[i] == Some(k as int),
                None => array@[i] is None,
            }),
            IntegerArray::UInt16(v) => array@.len() == v@.len() && (0 <= i < v@.len() ==> match v@[i] {
                Some(k) => array@[i] == Some(k as int),
                None => array@[i] is None,
            }),
            IntegerArray::UInt32(v) => array@.len() == v@.len() && (0 <= i < v@.len() ==> match v@[i] {
                Some(k) => array@[i] == Some(k as int),
                None => array@[i] is None,
            }),
            IntegerArray::UInt64(v) => array@.len() == v@.len() && (0 <= i < v@.len() ==> match v@[i] {
                Some(k) => array@[i] == Some(k as int),
                None => array@[i] is None,
            }),
        },
{
}

/// Two arrays of integers are of the same type only if they hold integers of the same width and
/// sign.
pub proof fn law_integer_types(a: IntegerArray, b: IntegerArray)
    ensures
        a.spec_type() == b.spec_type() <==> {
            ||| a is Int8 && b is Int8
            ||| a is Int16 && b is Int16
            ||| a is Int32 && b is Int32
            ||| a is Int64 && b is Int64
            ||| a is UInt8 && b is UInt8
            ||| a is UInt16 && b is UInt16
            ||| a is UInt32 && b is UInt32
            ||| a is UInt64 && b is UInt64
        },
{
}

/// Slots that hold the cuts of others hold their substrings, whether the elements are null or
/// not, and are valid where those are.
pub proof fn law_slots_cut<O: OffsetSizeTrait>(
    made: Layout<O>,
    made_bytes: Seq<u8>,
    from: Layout<O>,
    from_bytes: Seq<u8>,
    start: int,
    length: Option<u64>,
    i: int,
)
    requires
        made.holds_cuts(made_bytes, from, from_bytes, start, length),
        0 <= i < from.spec_len(),
    ensures
        made.spec_len() == from.spec_len(),
        made.valid(i) == from.valid(i),
        made.nullable() == from.nullable(),
        made.bound(0) == 0,
        made.bound(from.spec_len() as int) == made_bytes.len(),
        made_bytes.subrange(made.bound(i), made.bound(i + 1)) == cut(
            from_bytes.subrange(from.bound(i), from.bound(i + 1)),
            start,
            length,
        ),
{
    assert(made.slot(made_bytes, i) == cut(from.slot(from_bytes, i), start, length));
}

/// Substrings are in an array of the type of the one they are taken of. Each slot holds a
/// substring, null or not; elements of one length have substrings of one length; and a dictionary
/// has the keys it had, of the same type, over the substrings of its values.
pub proof fn law_type_kept(made: Array, array: Array, start: int, length: Option<u64>)
    requires
        made.is_substring_of(array, start, length),
    ensures
        match array {
            Array::Binary(a) => {
                &&& made matches Array::Binary(r)
                &&& r.spec_layout().holds_cuts(
                    r.bytes(),
                    a.spec_layout(),
                    a.bytes(),
                    start,
                    length,
                )
            },
            Array::LargeBinary(a) => {
                &&& made matches Array::LargeBinary(r)
                &&& r.spec_layout().holds_cuts(
                    r.bytes(),
                    a.spec_layout(),
                    a.bytes(),
                    start,
                    length,
                )
            },
            Array::FixedSizeBinary(a) => {
                &&& made matches Array::FixedSizeBinary(r)
                &&& r.width() == cut_end(a.width(), start, length) - cut_start(a.width(), start)
                &&& r.spec_len() == a.spec_len()
                &&& r.spec_offset() == 0
                &&& r.nullable() == a.nullable()
                &&& forall|i: int|
                    0 <= i < a.spec_len() ==> #[trigger] r.slot(i) == cut(a.slot(i), start, length)
                &&& forall|i: int| 0 <= i < a.spec_len() ==> #[trigger] r.valid(i) == a.valid(i)
            },
            Array::Utf8(a) => {
                &&& made matches Array::Utf8(r)
                &&& r.spec_layout().holds_cuts(
                    encode_utf8(r.chars()),
                    a.spec_layout(),
                    encode_utf8(a.chars()),
                    start,
                    length,
                )
            },
            Array::LargeUtf8(a) => {
                &&& made matches Array::LargeUtf8(r)
                &&& r.spec_layout().holds_cuts(
                    encode_utf8(r.chars()),
                    a.spec_layout(),
                    encode_utf8(a.chars()),
                    start,
                    length,
                )
            },
            Array::Dictionary(a) => {
                &&& made matches Array::Dictionary(r)
                &&& r.spec_keys()@ == a.spec_keys()@
                &&& r.spec_keys().spec_type() == a.spec_keys().spec_type()
                &&& r.spec_values().is_substring_of(a.spec_values(), start, length)
            },
            _ => false,
        },
{
}

/// What a string array is refused for. It is accepted if and only if both ends of
/// the substring of every slot are character boundaries of the text in that slot. Otherwise the
/// first slot for which that fails is refused at its start, or at its end if its start is a
/// boundary.
pub proof fn law_text_refused<O: OffsetSizeTrait>(
    array: GenericStringArray<O>,
    start: int,
    length: Option<u64>,
)
    requires
        array.wf(),
    ensures
        array.first_bad_cut(0, start, length) is None <==> forall|i: int|
            0 <= i < array.spec_layout().spec_len() ==> ({
                let slot = #[trigger] array.spec_layout().slot(encode_utf8(array.chars()), i);
                let n = slot.len() as int;
                &&& is_char_boundary(slot, cut_start(n, start))
                &&& is_char_boundary(slot, cut_end(n, start, length))
            }),
        array.first_bad_cut(0, start, length) matches Some(at) ==> exists|i: int|
            {
                let slot = #[trigger] array.spec_layout().slot(encode_utf8(array.chars()), i);
                let n = slot.len() as int;
                &&& 0 <= i < array.spec_layout().spec_len()
                &&& at == array.spec_layout().bound(i) + (if is_char_boundary(
                    slot,
                    cut_start(n, start),
                ) {
                    cut_end(n, start, length)
                } else {
                    cut_start(n, start)
                })
                &&& !(is_char_boundary(slot, cut_start(n, start)) && is_char_boundary(
                    slot,
                    cut_end(n, start, length),
                ))
                &&& forall|k: int|
                    0 <= k < i ==> ({
                        let before = #[trigger] array.spec_layout().slot(
                            encode_utf8(array.chars()),
                            k,
                        );
                        let m = before.len() as int;
                        &&& is_char_boundary(before, cut_start(m, start))
                        &&& is_char_boundary(before, cut_end(m, start, length))
                    })
            },
{
    let layout = array.spec_layout();
    let bytes = encode_utf8(array.chars());
    law_first_bad_cut(array, start, length);
    assert forall|i: int| 0 <= i < layout.spec_len() implies (#[trigger] array.bad_cut(
        i,
        start,
        length,
    ) is None <==> ({
        let slot = layout.slot(bytes, i);
        let n = slot.len() as int;
        &&& is_char_boundary(slot, cut_start(n, start))
        &&& is_char_boundary(slot, cut_end(n, start, length))
    })) by {
        law_bad_cut_in_slot(array, i, start, length);
    }
    match array.first_bad_cut(0, start, length) {
        None => {
            assert forall|i: int| 0 <= i < layout.spec_len() implies ({
                let slot = #[trigger] layout.slot(bytes, i);
                let n = slot.len() as int;
                &&& is_char_boundary(slot, cut_start(n, start))
                &&& is_char_boundary(slot, cut_end(n, start, length))
            }) by {
                assert(array.bad_cut(i, start, length) is None);
            }
        },
        Some(at) => {
            let i = choose|i: int|
                {
                    &&& 0 <= i < layout.spec_len()
                    &&& #[trigger] array.bad_cut(i, start, length) == Some(at)
                    &&& forall|k: int|
                        0 <= k < i ==> #[trigger] array.bad_cut(k, start, length) is None
                };
            let slot = layout.slot(bytes, i);
            let n = slot.len() as int;
            assert(array.bad_cut(i, start, length) == Some(at));
            assert(0 <= layout.bound(i) <= layout.bound(i + 1) <= layout.bound(
                layout.spec_len() as int,
            )) by {
                assert(layout.bound(i + 1) <= layout.bound(layout.spec_len() as int));
            }
            assert(n == layout.width(i));
            lemma_start_of_slot(array, i, start);
            assert forall|k: int| 0 <= k < i implies ({
                let before = #[trigger] layout.slot(bytes, k);
                let m = before.len() as int;
                &&& is_char_boundary(before, cut_start(m, start))
                &&& is_char_boundary(before, cut_end(m, start, length))
            }) by {
                assert(array.bad_cut(k, start, length) is None);
            }
        },
    }
}

/// The start of a substring is a boundary of the buffer where it is one of its slot.
proof fn lemma_start_of_slot<O: OffsetSizeTrait>(
    array: GenericStringArray<O>,
    i: int,
    start: int,
)
    requires
        array.wf(),
        0 <= i < array.spec_layout().spec_len(),
    ensures
        ({
            let slot = array.spec_layout().slot(array.bytes(), i);
            is_char_boundary(slot, cut_start(slot.len() as int, start)) <==> (start == 0
                || is_char_boundary(array.bytes(), array.spec_layout().cut_first(i, start)))
        }),
{
    law_bad_cut_in_slot(array, i, start, None);
    let layout = array.spec_layout();
    let slot = layout.slot(array.bytes(), i);
    assert(0 <= layout.bound(i) <= layout.bound(i + 1));
    assert(layout.bound(i + 1) <= layout.bound(layout.spec_len() as int));
    lemma_end_of_slot(array, i);
}

/// The end of the text in a slot is a boundary of it.
proof fn lemma_end_of_slot<O: OffsetSizeTrait>(array: GenericStringArray<O>, i: int)
    requires
        array.wf(),
        0 <= i < array.spec_layout().spec_len(),
    ensures
        ({
            let slot = array.spec_layout().slot(array.bytes(), i);
            is_char_boundary(slot, slot.len() as int)
        }),
{
    law_bad_cut_in_slot(array, i, 0, None);
}

/// Taking substrings of a string array succeeds if and only if both ends of the substring of every
/// slot are character boundaries of the text in that slot. If it fails, the message names a place
/// where such a substring would begin or end inside a character.
pub proof fn law_string_array_refused(array: StringArray, start: int, length: Option<u64>)
    requires
        array.wf(),
    ensures
        Array::Utf8(array).failure(start, length) is None <==> forall|i: int|
            0 <= i < array.spec_layout().spec_len() ==> ({
                let slot = #[trigger] array.spec_layout().slot(encode_utf8(array.chars()), i);
                let n = slot.len() as int;
                &&& is_char_boundary(slot, cut_start(n, start))
                &&& is_char_boundary(slot, cut_end(n, start, length))
            }),
        Array::Utf8(array).failure(start, length) matches Some(message) ==> exists|i: int|
            {
                let slot = #[trigger] array.spec_layout().slot(encode_utf8(array.chars()), i);
                let n = slot.len() as int;
                let at = array.spec_layout().bound(i) + (if is_char_boundary(
                    slot,
                    cut_start(n, start),
                ) {
                    cut_end(n, start, length)
                } else {
                    cut_start(n, start)
                });
                &&& 0 <= i < array.spec_layout().spec_len()
                &&& message == "The offset "@ + decimal(at as nat)
                    + " is at an invalid utf-8 boundary."@
                &&& !(is_char_boundary(slot, cut_start(n, start)) && is_char_boundary(
                    slot,
                    cut_end(n, start, length),
                ))
                &&& forall|k: int|
                    0 <= k < i ==> ({
                        let before = #[trigger] array.spec_layout().slot(
                            encode_utf8(array.chars()),
                            k,
                        );
                        let m = before.len() as int;
                        &&& is_char_boundary(before, cut_start(m, start))
                        &&& is_char_boundary(before, cut_end(m, start, length))
                    })
            },
{
    law_text_refused(array, start, length);
}

/// Taking substrings of a large string array succeeds if and only if both ends of the substring of
/// every slot are character boundaries of the text in that slot. If it fails, the message names a
/// place where such a substring would begin or end inside a character.
pub proof fn law_large_string_array_refused(
    array: LargeStringArray,
    start: int,
    length: Option<u64>,
)
    requires
        array.wf(),
    ensures
        Array::LargeUtf8(array).failure(start, length) is None <==> forall|i: int|
            0 <= i < array.spec_layout().spec_len() ==> ({
                let slot = #[trigger] array.spec_layout().slot(encode_utf8(array.chars()), i);
                let n = slot.len() as int;
                &&& is_char_boundary(slot, cut_start(n, start))
                &&& is_char_boundary(slot, cut_end(n, start, length))
            }),
        Array::LargeUtf8(array).failure(start, length) matches Some(message) ==> exists|i: int|
            {
                let slot = #[trigger] array.spec_layout().slot(encode_utf8(array.chars()), i);
                let n = slot.len() as int;
                let at = array.spec_layout().bound(i) + (if is_char_boundary(
                    slot,
                    cut_start(n, start),
                ) {
                    cut_end(n, start, length)
                } else {
                    cut_start(n, start)
                });
                &&& 0 <= i < array.spec_layout().spec_len()
                &&& message == "The offset "@ + decimal(at as nat)
                    + " is at an invalid utf-8 boundary."@
                &&& !(is_char_boundary(slot, cut_start(n, start)) && is_char_boundary(
                    slot,
                    cut_end(n, start, length),
                ))
                &&& forall|k: int|
                    0 <= k < i ==> ({
                        let before = #[trigger] array.spec_layout().slot(
                            encode_utf8(array.chars()),
                            k,
                        );
                        let m = before.len() as int;
                        &&& is_char_boundary(before, cut_start(m, start))
                        &&& is_char_boundary(before, cut_end(m, start, length))
                    })
            },
{
    law_text_refused(array, start, length);
}

/// Taking substrings of a dictionary succeeds if and only if taking them of its values does, and
/// fails as that does: for text, if and only if an end of the substring of some value is no
/// character boundary of that value.
pub proof fn law_dictionary_refused(dict: DictionaryArray, start: int, length: Option<u64>)
    requires
        dict.spec_values().wf(),
    ensures
        Array::Dictionary(dict).failure(start, length) == dict.spec_values().failure(start, length),
        dict.spec_values() matches Array::Utf8(values) ==> (Array::Dictionary(dict).failure(
            start,
            length,
        ) is None <==> forall|i: int|
            0 <= i < values.spec_layout().spec_len() ==> ({
                let slot = #[trigger] values.spec_layout().slot(encode_utf8(values.chars()), i);
                let n = slot.len() as int;
                &&& is_char_boundary(slot, cut_start(n, start))
                &&& is_char_boundary(slot, cut_end(n, start, length))
            })),
        dict.spec_values() matches Array::LargeUtf8(values) ==> (Array::Dictionary(dict).failure(
            start,
            length,
        ) is None <==> forall|i: int|
            0 <= i < values.spec_layout().spec_len() ==> ({
                let slot = #[trigger] values.spec_layout().slot(encode_utf8(values.chars()), i);
                let n = slot.len() as int;
                &&& is_char_boundary(slot, cut_start(n, start))
                &&& is_char_boundary(slot, cut_end(n, start, length))
            })),
{
    match dict.spec_values() {
        Array::Utf8(values) => law_string_array_refused(values, start, length),
        Array::LargeUtf8(values) => law_large_string_array_refused(values, start, length),
        _ => {},
    }
}

/// Byte strings are never refused, and other types always, by their names.
pub proof fn law_other_types(array: Array, start: int, length: Option<u64>)
    ensures
        match array {
            Array::Binary(_) => array.failure(start, length) is None && array.has_substrings(),
            Array::LargeBinary(_) => array.failure(start, length) is None && array.has_substrings(),
            Array::FixedSizeBinary(_) => array.failure(start, length) is None
                && array.has_substrings(),
            Array::Utf8(_) => array.has_substrings(),
            Array::LargeUtf8(_) => array.has_substrings(),
            Array::Dictionary(d) => array.has_substrings() == d.spec_values().has_substrings(),
            Array::Integer(a) => !array.has_substrings() && array.failure(start, length) == Some(
                "substring does not support type "@ + match a {
                    IntegerArray::Int8(_) => "Int8"@,
                    IntegerArray::Int16(_) => "Int16"@,
                    IntegerArray::Int32(_) => "Int32"@,
                    IntegerArray::Int64(_) => "Int64"@,
                    IntegerArray::UInt8(_) => "UInt8"@,
                    IntegerArray::UInt16(_) => "UInt16"@,
                    IntegerArray::UInt32(_) => "UInt32"@,
                    IntegerArray::UInt64(_) => "UInt64"@,
                },
            ),
            Array::Other(a) => !array.has_substrings() && array.failure(start, length) == Some(
                "substring does not support type "@ + a.spec_type(),
            ),
        },
{
}

} // verus!
