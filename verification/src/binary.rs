//! Arrays of byte strings.

use crate::bitmap::bits_of;
use crate::error::ArrowError;
use crate::layout::{bit_set, parts_fit, Layout};
use crate::offset::OffsetSizeTrait;
use vstd::prelude::*;
use vstd::slice::slice_subrange;

verus! {

/// An array of byte strings of any length, some of which may be null.
#[derive(Debug)]
pub struct GenericBinaryArray<O> {
    layout: Layout<O>,
    values: Vec<u8>,
}

/// Byte strings with offsets of 32 bits.
pub type BinaryArray = GenericBinaryArray<i32>;

/// Byte strings with offsets of 64 bits.
pub type LargeBinaryArray = GenericBinaryArray<i64>;

impl<O: OffsetSizeTrait> View for GenericBinaryArray<O> {
    type V = Seq<Option<Seq<u8>>>;

    /// The elements, with `None` for a null one.
    open spec fn view(&self) -> Seq<Option<Seq<u8>>> {
        self.spec_layout().elements(self.bytes())
    }
}

impl<O: OffsetSizeTrait> GenericBinaryArray<O> {
    /// The offsets and validity bits.
    pub closed spec fn spec_layout(&self) -> Layout<O> {
        self.layout
    }

    /// The value buffer.
    pub closed spec fn bytes(&self) -> Seq<u8> {
        self.values@
    }

    /// All slots lie inside the value buffer.
    pub open spec fn wf(&self) -> bool {
        &&& self.spec_layout().wf()
        &&& self.spec_layout().bound(self.spec_layout().spec_len() as int) <= self.bytes().len()
    }

    /// Whether this array holds the substrings of all elements of another.
    pub open spec fn is_substring_of(
        &self,
        from: GenericBinaryArray<O>,
        start: int,
        length: Option<u64>,
    ) -> bool {
        self.spec_layout().holds_cuts(
            self.bytes(),
            from.spec_layout(),
            from.bytes(),
            start,
            length,
        )
    }

    /// Makes an array of `len` elements of its buffers, beginning with element `offset`. Without
    /// `null_bits` no element is null.
    pub fn try_new(
        offsets: Vec<O>,
        values: Vec<u8>,
        null_bits: Option<Vec<u8>>,
        offset: usize,
        len: usize,
    ) -> (r: Result<GenericBinaryArray<O>, ArrowError>)
        ensures
            r is Ok <==> parts_fit(
                offsets@,
                null_bits,
                offset as int,
                len as int,
                values@.len() as int,
            ),
            r is Ok <==> {
                &&& offset + len < offsets@.len()
                &&& forall|i: int, j: int|
                    offset <= i <= j <= offset + len ==> 0 <= (#[trigger] offsets@[i]).value() <= (
                    #[trigger] offsets@[j]).value() <= values@.len()
                &&& null_bits matches Some(b) ==> offset + len <= b@.len() * 8
            },
            r matches Ok(a) ==> {
                &&& a.wf()
                &&& a.bytes() == values@
                &&& a.spec_layout().nullable() == (null_bits is Some)
                &&& a.spec_layout().spec_len() == len
                &&& forall|i: int|
                    0 <= i <= len ==> #[trigger] a.spec_layout().bound(i) == offsets@[offset
                        + i].value()
                &&& forall|i: int|
                    0 <= i < len ==> #[trigger] a.spec_layout().valid(i) == bit_set(
                        null_bits,
                        offset + i,
                    )
                &&& a@.len() == len
                &&& forall|i: int|
                    0 <= i < len ==> #[trigger] a@[i] == (if (match null_bits {
                        Some(b) => bits_of(b@)[offset + i],
                        None => true,
                    }) {
                        Some(
                            values@.subrange(
                                offsets@[offset + i].value(),
                                offsets@[offset + i + 1].value(),
                            ),
                        )
                    } else {
                        None
                    })
                &&& forall|i: int|
                    0 <= i < len ==> #[trigger] a.spec_layout().slot(a.bytes(), i)
                        == values@.subrange(
                        offsets@[offset + i].value(),
                        offsets@[offset + i + 1].value(),
                    )
            },
            r matches Err(e) ==> e is InvalidArgumentError,
    {
        match Layout::try_new(offsets, null_bits, offset, len, values.len()) {
            Ok(layout) => Ok(GenericBinaryArray { layout, values }),
            Err(e) => Err(e),
        }
    }

    /// An array with the given layout and value buffer.
    pub(crate) fn from_parts(layout: Layout<O>, values: Vec<u8>) -> (r: GenericBinaryArray<O>)
        requires
            layout.wf(),
            layout.bound(layout.spec_len() as int) <= values@.len(),
        ensures
            r.wf(),
            r.spec_layout() == layout,
            r.bytes() == values@,
    {
        GenericBinaryArray { layout, values }
    }

    /// The number of elements.
    pub fn len(&self) -> (r: usize)
        ensures
            r == self@.len(),
    {
        self.layout.len()
    }

    /// Whether element `i` is null.
    pub fn is_null(&self, i: usize) -> (r: bool)
        requires
            self.wf(),
            i < self@.len(),
        ensures
            r == (self@[i as int] is None),
    {
        !self.layout.is_valid(i)
    }

    /// The bytes of slot `i`: those of element `i`, where it is not null.
    pub fn value(&self, i: usize) -> (r: &[u8])
        requires
            self.wf(),
            i < self@.len(),
        ensures
            r@ == self.spec_layout().slot(self.bytes(), i as int),
            self@[i as int] matches Some(s) ==> r@ == s,
    {
        let first: usize = self.layout.get_bound(i);
        let last: usize = self.layout.get_bound(i + 1);
        slice_subrange(self.values.as_slice(), first, last)
    }

    /// The offsets and validity bits.
    pub(crate) fn layout(&self) -> (r: &Layout<O>)
        ensures
            *r == self.spec_layout(),
    {
        &self.layout
    }

    /// The value buffer.
    pub(crate) fn value_data(&self) -> (r: &[u8])
        ensures
            r@ == self.bytes(),
    {
        self.values.as_slice()
    }
}

} // verus!
