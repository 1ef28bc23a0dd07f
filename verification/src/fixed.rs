//! Arrays of byte strings that all have the same length.

use crate::bitmap::{bits_of, slice_validity, Bitmap};
use crate::cut::{cut, cut_end, cut_start};
use crate::error::ArrowError;
use crate::layout::bit_set;
use vstd::arithmetic::mul::{
    lemma_mul_inequality, lemma_mul_is_distributive_add_other_way, lemma_mul_nonnegative,
};
use vstd::prelude::*;
use vstd::slice::slice_subrange;

verus! {

/// An array of byte strings of one length, some of which may be null.
///
/// Both buffers may belong to a longer array, of which this one begins at element `offset`.
#[derive(Debug)]
pub struct FixedSizeBinaryArray {
    value_length: i32,
    values: Vec<u8>,
    validity: Option<Bitmap>,
    offset: usize,
    len: usize,
}

impl View for FixedSizeBinaryArray {
    type V = Seq<Option<Seq<u8>>>;

    /// The elements, with `None` for a null one.
    open spec fn view(&self) -> Seq<Option<Seq<u8>>> {
        Seq::new(
            self.spec_len(),
            |i: int|
                if self.valid(i) {
                    Some(self.slot(i))
                } else {
                    None
                },
        )
    }
}

/// Whether the parts of an array fit together.
pub open spec fn fixed_parts_fit(
    value_length: i32,
    size: int,
    null_bits: Option<Vec<u8>>,
    offset: int,
    len: int,
) -> bool {
    &&& 0 <= value_length
    &&& offset + len <= usize::MAX
    &&& (offset + len) * value_length <= size
    &&& null_bits matches Some(b) ==> offset + len <= b@.len() * 8
}

impl FixedSizeBinaryArray {
    /// The number of elements.
    pub closed spec fn spec_len(&self) -> nat {
        self.len as nat
    }

    /// The number of bytes of each element.
    pub closed spec fn width(&self) -> int {
        self.value_length as int
    }

    /// The value buffer.
    pub closed spec fn bytes(&self) -> Seq<u8> {
        self.values@
    }

    /// The element of the buffers that is the first one of this array.
    pub closed spec fn spec_offset(&self) -> int {
        self.offset as int
    }

    /// Whether element `i` is not null.
    pub closed spec fn valid(&self, i: int) -> bool {
        match self.validity {
            Some(b) => b@[self.offset + i],
            None => true,
        }
    }

    /// Whether there are validity bits. Without them no element is null.
    pub closed spec fn nullable(&self) -> bool {
        self.validity is Some
    }

    /// Whether the validity bits cover all elements of this array.
    pub closed spec fn bits_backed(&self) -> bool {
        self.validity matches Some(b) ==> self.offset + self.len <= b@.len()
    }

    /// The buffers are long enough.
    pub open spec fn wf(&self) -> bool {
        &&& 0 <= self.width()
        &&& self.spec_offset() + self.spec_len() <= usize::MAX
        &&& (self.spec_offset() + self.spec_len()) * self.width() <= self.bytes().len()
        &&& self.bits_backed()
    }

    /// Where slot `i` begins in the value buffer.
    pub open spec fn first(&self, i: int) -> int {
        (self.spec_offset() + i) * self.width()
    }

    /// The bytes of slot `i`.
    pub open spec fn slot(&self, i: int) -> Seq<u8> {
        self.bytes().subrange(self.first(i), self.first(i) + self.width())
    }

    /// Whether this array holds the substrings of all slots of another, null or not, in the same
    /// order, and nothing else.
    pub open spec fn is_substring_of(
        &self,
        from: FixedSizeBinaryArray,
        start: int,
        length: Option<u64>,
    ) -> bool {
        &&& self.spec_len() == from.spec_len()
        &&& self.width() == cut_end(from.width(), start, length) - cut_start(from.width(), start)
        &&& self.spec_offset() == 0
        &&& self.bytes().len() == self.spec_len() * self.width()
        &&& forall|i: int|
            0 <= i < self.spec_len() ==> #[trigger] self.slot(i) == cut(from.slot(i), start, length)
        &&& self.nullable() == from.nullable()
        &&& forall|i: int| 0 <= i < self.spec_len() ==> #[trigger] self.valid(i) == from.valid(i)
    }

    /// A slot lies inside the value buffer.
    pub proof fn lemma_slot_inside(self, i: int)
        requires
            self.wf(),
            0 <= i < self.spec_len(),
        ensures
            0 <= self.first(i),
            self.first(i) + self.width() <= self.bytes().len(),
    {
        let at = self.spec_offset() + i;
        lemma_mul_nonnegative(at, self.width());
        lemma_mul_inequality(at + 1, self.spec_offset() + self.spec_len(), self.width());
        lemma_mul_is_distributive_add_other_way(self.width(), at, 1);
    }

    /// Makes an array of `len` elements of `value_length` bytes of its buffers, beginning with
    /// element `offset`. Without `null_bits` no element is null.
    pub fn try_new(
        value_length: i32,
        values: Vec<u8>,
        null_bits: Option<Vec<u8>>,
        offset: usize,
        len: usize,
    ) -> (r: Result<FixedSizeBinaryArray, ArrowError>)
        ensures
            r is Ok <==> fixed_parts_fit(
                value_length,
                values@.len() as int,
                null_bits,
                offset as int,
                len as int,
            ),
            r is Ok <==> {
                &&& 0 <= value_length
                &&& offset + len <= usize::MAX
                &&& (offset + len) * value_length <= values@.len()
                &&& null_bits matches Some(b) ==> offset + len <= b@.len() * 8
            },
            r matches Ok(a) ==> {
                &&& a.wf()
                &&& a.width() == value_length
                &&& a.bytes() == values@
                &&& a.spec_offset() == offset
                &&& a.spec_len() == len
                &&& a.nullable() == (null_bits is Some)
                &&& forall|i: int|
                    0 <= i < len ==> #[trigger] a.valid(i) == bit_set(null_bits, offset + i)
                &&& a@.len() == len
                &&& forall|i: int|
                    0 <= i < len ==> #[trigger] a@[i] == (if (match null_bits {
                        Some(b) => bits_of(b@)[offset + i],
                        None => true,
                    }) {
                        Some(
                            values@.subrange(
                                (offset + i) * value_length,
                                (offset + i + 1) * value_length,
                            ),
                        )
                    } else {
                        None
                    })
                &&& forall|i: int|
                    0 <= i < len ==> #[trigger] a.slot(i) == values@.subrange(
                        (offset + i) * value_length,
                        (offset + i + 1) * value_length,
                    )
                &&& forall|i: int|
                    0 <= i < len ==> #[trigger] a.first(i) == (offset + i) * value_length
            },
            r matches Err(e) ==> e is InvalidArgumentError,
    {
        if value_length < 0 {
            return Err(
                ArrowError::InvalidArgumentError("the value length is negative".to_owned()),
            );
        }
        let end: usize = match offset.checked_add(len) {
            Some(end) => end,
            None => {
                return Err(
                    ArrowError::InvalidArgumentError("the array is too long".to_owned()),
                );
            },
        };
        match end.checked_mul(value_length as usize) {
            Some(size) if size <= values.len() => {},
            _ => {
                assert(values@.len() == values.len());
                return Err(
                    ArrowError::InvalidArgumentError("the value buffer is too short".to_owned()),
                );
            },
        }
        let validity = match null_bits {
            Some(b) => {
                let map = Bitmap::new(b);
                if !map.covers(end) {
                    return Err(
                        ArrowError::InvalidArgumentError("the null buffer is too short".to_owned()),
                    );
                }
                Some(map)
            },
            None => None,
        };
        let a = FixedSizeBinaryArray { value_length, values, validity, offset, len };
        proof {
            assert forall|i: int| 0 <= i < len implies #[trigger] a.slot(i) == values@.subrange(
                (offset + i) * value_length,
                (offset + i + 1) * value_length,
            ) by {
                lemma_mul_is_distributive_add_other_way(value_length as int, offset + i, 1);
            }
        }
        Ok(a)
    }

    /// An array whose buffers begin with its first element.
    pub(crate) fn new_unsliced(
        value_length: i32,
        values: Vec<u8>,
        validity: Option<Bitmap>,
        len: usize,
    ) -> (r: FixedSizeBinaryArray)
        requires
            0 <= value_length,
            values@.len() == len * value_length,
            validity matches Some(b) ==> len <= b@.len(),
        ensures
            r.wf(),
            r.width() == value_length,
            r.bytes() == values@,
            r.spec_offset() == 0,
            r.spec_len() == len,
            r.nullable() == (validity is Some),
            forall|i: int|
                0 <= i < len ==> #[trigger] r.valid(i) == (match validity {
                    Some(b) => b@[i],
                    None => true,
                }),
    {
        FixedSizeBinaryArray { value_length, values, validity, offset: 0, len }
    }

    /// The number of elements.
    pub fn len(&self) -> (r: usize)
        ensures
            r == self@.len(),
    {
        self.len
    }

    /// The number of bytes of each element.
    pub fn value_length(&self) -> (r: i32)
        ensures
            r == self.width(),
    {
        self.value_length
    }

    /// Where slot `i` begins in the value buffer.
    pub fn value_offset(&self, i: usize) -> (r: usize)
        requires
            self.wf(),
            i < self@.len(),
        ensures
            r == self.first(i as int),
            r == (self.spec_offset() + i) * self.width(),
    {
        proof {
            self.lemma_slot_inside(i as int);
            assert(self.first(i as int) <= self.values.len());
        }
        (self.offset + i) * (self.value_length as usize)
    }

    /// Whether element `i` is null.
    pub fn is_null(&self, i: usize) -> (r: bool)
        requires
            self.wf(),
            i < self@.len(),
        ensures
            r == (self@[i as int] is None),
    {
        match &self.validity {
            Some(b) => !b.get(self.offset + i),
            None => false,
        }
    }

    /// The bytes of slot `i`: those of element `i`, where it is not null.
    pub fn value(&self, i: usize) -> (r: &[u8])
        requires
            self.wf(),
            i < self@.len(),
        ensures
            r@ == self.slot(i as int),
            self@[i as int] matches Some(s) ==> r@ == s,
    {
        let first: usize = self.value_offset(i);
        proof {
            self.lemma_slot_inside(i as int);
            assert(self.first(i as int) + self.width() <= self.values.len());
        }
        slice_subrange(self.values.as_slice(), first, first + self.value_length as usize)
    }

    /// The value buffer.
    pub(crate) fn value_data(&self) -> (r: &[u8])
        ensures
            r@ == self.bytes(),
    {
        self.values.as_slice()
    }

    /// The validity bits of the elements of this array, from the first one on.
    pub(crate) fn own_validity(&self) -> (r: Option<Bitmap>)
        requires
            self.wf(),
        ensures
            r is Some <==> self.nullable(),
            r matches Some(b) ==> {
                &&& self.spec_len() <= b@.len()
                &&& forall|i: int| 0 <= i < self.spec_len() ==> #[trigger] b@[i] == self.valid(i)
            },
            r is None ==> forall|i: int| #[trigger] self.valid(i),
    {
        slice_validity(&self.validity, self.offset, self.len)
    }
}

} // verus!
