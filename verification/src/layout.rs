//! Offsets and validity bits: what an array of variable-length elements holds beside its bytes.

use crate::bitmap::{bits_of, slice_validity, Bitmap};
use crate::cut::{cut, cut_end, cut_start};
use crate::error::ArrowError;
use crate::offset::OffsetSizeTrait;
use vstd::prelude::*;

verus! {

/// The slots of an array of `len` elements. The elements lie back to back in a value buffer that
/// is kept elsewhere: slot `i` reaches from bound `i` to bound `i + 1` of that buffer. A null
/// element has a slot too, and its bytes are of no meaning.
///
/// Both buffers may belong to a longer array, of which this one begins at element `offset`.
#[derive(Debug)]
pub struct Layout<O> {
    offsets: Vec<O>,
    validity: Option<Bitmap>,
    offset: usize,
    len: usize,
}

/// Whether the parts of a layout fit together, and fit a value buffer of `size` bytes.
pub open spec fn parts_fit<O: OffsetSizeTrait>(
    offsets: Seq<O>,
    null_bits: Option<Vec<u8>>,
    offset: int,
    len: int,
    size: int,
) -> bool {
    &&& offset + len < offsets.len()
    &&& forall|i: int, j: int|
        offset <= i <= j <= offset + len ==> 0 <= (#[trigger] offsets[i]).value() <= (
        #[trigger] offsets[j]).value() <= size
    &&& null_bits matches Some(b) ==> offset + len <= b@.len() * 8
}

/// Element `i` of validity bits, of which `None` stands for all set.
pub open spec fn bit_set(null_bits: Option<Vec<u8>>, i: int) -> bool {
    match null_bits {
        Some(b) => bits_of(b@)[i],
        None => true,
    }
}

impl<O: OffsetSizeTrait> Layout<O> {
    /// The number of elements.
    pub closed spec fn spec_len(&self) -> nat {
        self.len as nat
    }

    /// Where slot `i` begins in the value buffer and slot `i - 1` ends.
    pub closed spec fn bound(&self, i: int) -> int {
        self.offsets@[self.offset + i].value()
    }

    /// Whether element `i` is not null.
    pub closed spec fn valid(&self, i: int) -> bool {
        match self.validity {
            Some(b) => b@[self.offset + i],
            None => true,
        }
    }

    /// Whether there are validity bits. Without them no element is null.
    pub closed spec fn nullable(&self) -> bool {
        self.validity is Some
    }

    /// Whether the buffers hold all elements of this array.
    pub closed spec fn backed(&self) -> bool {
        &&& self.offset + self.len < self.offsets.len()
        &&& self.validity matches Some(b) ==> self.offset + self.len <= b@.len()
    }

    /// Whether the offsets hold nothing but the bounds of this array.
    pub closed spec fn unsliced(&self) -> bool {
        &&& self.offset == 0
        &&& self.offsets@.len() == self.len + 1
    }

    /// The buffers are long enough, and the bounds grow.
    pub open spec fn wf(&self) -> bool {
        &&& self.backed()
        &&& self.spec_len() < usize::MAX
        &&& forall|i: int, j: int|
            0 <= i <= j <= self.spec_len() ==> 0 <= #[trigger] self.bound(i) <= #[trigger] self.bound(
                j,
            ) <= usize::MAX
    }

    /// The number of bytes of slot `i`.
    pub open spec fn width(&self, i: int) -> int {
        self.bound(i + 1) - self.bound(i)
    }

    /// The bytes of slot `i`, given the value buffer.
    pub open spec fn slot(&self, bytes: Seq<u8>, i: int) -> Seq<u8> {
        bytes.subrange(self.bound(i), self.bound(i + 1))
    }

    /// The elements of the array, given the value buffer.
    pub open spec fn elements(&self, bytes: Seq<u8>) -> Seq<Option<Seq<u8>>> {
        Seq::new(
            self.spec_len(),
            |i: int|
                if self.valid(i) {
                    Some(self.slot(bytes, i))
                } else {
                    None
                },
        )
    }

    /// Where the substring of slot `i` begins in the value buffer.
    pub open spec fn cut_first(&self, i: int, start: int) -> int {
        self.bound(i) + cut_start(self.width(i), start)
    }

    /// Where the substring of slot `i` ends in the value buffer.
    pub open spec fn cut_last(&self, i: int, start: int, length: Option<u64>) -> int {
        self.bound(i) + cut_end(self.width(i), start, length)
    }

    /// Whether this layout and value buffer hold the substrings of all slots of another, null or
    /// not, in the same order, and nothing else.
    pub open spec fn holds_cuts(
        &self,
        bytes: Seq<u8>,
        from: Layout<O>,
        from_bytes: Seq<u8>,
        start: int,
        length: Option<u64>,
    ) -> bool {
        &&& self.spec_len() == from.spec_len()
        &&& self.unsliced()
        &&& self.bound(0) == 0
        &&& self.bound(self.spec_len() as int) == bytes.len()
        &&& forall|i: int|
            0 <= i < self.spec_len() ==> #[trigger] self.slot(bytes, i) == cut(
                from.slot(from_bytes, i),
                start,
                length,
            )
        &&& self.nullable() == from.nullable()
        &&& forall|i: int| 0 <= i < self.spec_len() ==> #[trigger] self.valid(i) == from.valid(i)
    }

    /// No bound is above the greatest offset.
    pub(crate) proof fn lemma_bound_at_most_max(self, i: int)
        ensures
            self.bound(i) <= O::max_value(),
    {
        self.offsets@[self.offset + i].lemma_at_most_max();
    }

    /// Makes a layout of its parts, where they fit together and fit a value buffer of `size`
    /// bytes.
    pub fn try_new(
        offsets: Vec<O>,
        null_bits: Option<Vec<u8>>,
        offset: usize,
        len: usize,
        size: usize,
    ) -> (r: Result<Layout<O>, ArrowError>)
        ensures
            r is Ok <==> parts_fit(offsets@, null_bits, offset as int, len as int, size as int),
            r is Ok <==> {
                &&& offset + len < offsets@.len()
                &&& forall|i: int, j: int|
                    offset <= i <= j <= offset + len ==> 0 <= (#[trigger] offsets@[i]).value() <= (
                    #[trigger] offsets@[j]).value() <= size
                &&& null_bits matches Some(b) ==> offset + len <= b@.len() * 8
            },
            r matches Ok(l) ==> {
                &&& l.wf()
                &&& l.spec_len() == len
                &&& forall|i: int|
                    0 <= i <= len ==> #[trigger] l.bound(i) == offsets@[offset + i].value()
                &&& l.bound(len as int) <= size
                &&& forall|i: int|
                    0 <= i < len ==> #[trigger] l.valid(i) == bit_set(null_bits, offset + i)
                &&& forall|i: int|
                    0 <= i < len ==> #[trigger] l.valid(i) == (match null_bits {
                        Some(b) => bits_of(b@)[offset + i],
                        None => true,
                    })
                &&& l.nullable() == (null_bits is Some)
            },
            r matches Err(e) ==> e is InvalidArgumentError,
    {
        if offset >= offsets.len() || len >= offsets.len() - offset {
            return Err(
                ArrowError::InvalidArgumentError("the offsets buffer is too short".to_owned()),
            );
        }
        let mut low: usize = 0;
        let mut k: usize = offset;
        while k <= offset + len
            invariant
                offset <= k <= offset + len + 1,
                offset + len < offsets.len(),
                k > offset ==> low == offsets@[k - 1].value(),
                k == offset ==> low == 0,
                forall|i: int, j: int|
                    offset <= i <= j < k ==> 0 <= (#[trigger] offsets@[i]).value() <= (
                    #[trigger] offsets@[j]).value() <= size,
            decreases offset + len + 1 - k,
        {
            match offsets[k].to_usize() {
                Some(v) if low <= v && v <= size => {
                    low = v;
                },
                _ => {
                    assert(!parts_fit(offsets@, null_bits, offset as int, len as int, size as int))
                        by {
                        let here = offsets@[k as int].value();
                        if k > offset {
                            assert(!(0 <= offsets@[k - 1].value() <= here <= size));
                        } else {
                            assert(!(0 <= offsets@[k as int].value() <= here <= size));
                        }
                    }
                    return Err(
                        ArrowError::InvalidArgumentError("an offset is out of place".to_owned()),
                    );
                },
            }
            k += 1;
        }
        let validity = match null_bits {
            Some(b) => {
                let map = Bitmap::new(b);
                if !map.covers(offset + len) {
                    return Err(
                        ArrowError::InvalidArgumentError("the null buffer is too short".to_owned()),
                    );
                }
                Some(map)
            },
            None => None,
        };
        let l = Layout { offsets, validity, offset, len };
        assert forall|i: int, j: int| 0 <= i <= j <= l.spec_len() implies 0 <= #[trigger] l.bound(i)
            <= #[trigger] l.bound(j) <= size by {
            assert(offsets@[offset + i].value() <= offsets@[offset + j].value());
        }
        assert(0 <= l.bound(len as int) <= l.bound(len as int) <= size);
        Ok(l)
    }

    /// Makes a layout of offsets that begin with the first element.
    pub(crate) fn new_unsliced(offsets: Vec<O>, validity: Option<Bitmap>) -> (r: Layout<O>)
        requires
            0 < offsets@.len(),
            forall|i: int, j: int|
                0 <= i <= j < offsets@.len() ==> 0 <= (#[trigger] offsets@[i]).value() <= (
                #[trigger] offsets@[j]).value() <= usize::MAX,
            validity matches Some(b) ==> offsets@.len() - 1 <= b@.len(),
        ensures
            r.wf(),
            r.unsliced(),
            r.spec_len() == offsets@.len() - 1,
            forall|i: int| 0 <= i < offsets@.len() ==> #[trigger] r.bound(i) == offsets@[i].value(),
            r.nullable() == (validity is Some),
            forall|i: int|
                0 <= i < offsets@.len() - 1 ==> #[trigger] r.valid(i) == (match validity {
                    Some(b) => b@[i],
                    None => true,
                }),
    {
        let len: usize = offsets.len() - 1;
        Layout { offsets, validity, offset: 0, len }
    }

    /// The number of elements.
    pub fn len(&self) -> (r: usize)
        ensures
            r == self.spec_len(),
    {
        self.len
    }

    /// Bound `i`.
    pub fn get_bound(&self, i: usize) -> (r: usize)
        requires
            self.wf(),
            i <= self.spec_len(),
        ensures
            r == self.bound(i as int),
    {
        assert(0 <= self.bound(i as int) <= self.bound(i as int) <= usize::MAX);
        self.offsets[self.offset + i].to_usize().unwrap()
    }

    /// Whether element `i` is not null.
    pub fn is_valid(&self, i: usize) -> (r: bool)
        requires
            self.wf(),
            i < self.spec_len(),
        ensures
            r == self.valid(i as int),
    {
        match &self.validity {
            Some(b) => b.get(self.offset + i),
            None => true,
        }
    }

    /// The validity bits of the elements of this array, from the first one on.
    pub(crate) fn own_validity(&self) -> (r: Option<Bitmap>)
        requires
            self.wf(),
        ensures
            r is Some <==> self.nullable(),
            r matches Some(b) ==> {
                &&& self.spec_len() <= b@.len()
                &&& forall|i: int| 0 <= i < self.spec_len() ==> #[trigger] b@[i] == self.valid(i)
            },
            r is None ==> forall|i: int| #[trigger] self.valid(i),
    {
        slice_validity(&self.validity, self.offset, self.len)
    }
}

} // verus!
