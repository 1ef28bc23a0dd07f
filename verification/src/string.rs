//! Arrays of text.

use crate::bitmap::bits_of;
use crate::error::ArrowError;
use crate::layout::{bit_set, parts_fit, Layout};
use crate::offset::OffsetSizeTrait;
use crate::text::str_between;
use vstd::prelude::*;
use vstd::utf8::*;

verus! {

/// An array of texts of any length, some of which may be null.
#[derive(Debug)]
pub struct GenericStringArray<O> {
    layout: Layout<O>,
    values: String,
}

/// Texts with offsets of 32 bits.
pub type StringArray = GenericStringArray<i32>;

/// Texts with offsets of 64 bits.
pub type LargeStringArray = GenericStringArray<i64>;

impl<O: OffsetSizeTrait> View for GenericStringArray<O> {
    type V = Seq<Option<Seq<u8>>>;

    /// The elements as bytes, with `None` for a null one.
    open spec fn view(&self) -> Seq<Option<Seq<u8>>> {
        self.spec_layout().elements(self.bytes())
    }
}

impl<O: OffsetSizeTrait> GenericStringArray<O> {
    /// The offsets and validity bits.
    pub closed spec fn spec_layout(&self) -> Layout<O> {
        self.layout
    }

    /// The characters of the value buffer.
    pub closed spec fn chars(&self) -> Seq<char> {
        self.values@
    }

    /// The bytes of the value buffer.
    pub open spec fn bytes(&self) -> Seq<u8> {
        encode_utf8(self.chars())
    }

    /// All slots lie inside the value buffer, and no bound lies inside a character.
    pub open spec fn wf(&self) -> bool {
        &&& self.spec_layout().wf()
        &&& self.spec_layout().bound(self.spec_layout().spec_len() as int) <= self.bytes().len()
        &&& forall|i: int|
            0 <= i <= self.spec_layout().spec_len() ==> is_char_boundary(
                self.bytes(),
                #[trigger] self.spec_layout().bound(i),
            )
    }

    /// Whether this array holds the substrings of all elements of another.
    pub open spec fn is_substring_of(
        &self,
        from: GenericStringArray<O>,
        start: int,
        length: Option<u64>,
    ) -> bool {
        self.spec_layout().holds_cuts(
            self.bytes(),
            from.spec_layout(),
            from.bytes(),
            start,
            length,
        )
    }

    /// The first place where a substring of slot `i` would be cut inside a character, if there is
    /// one. Cuts that only follow the bounds of the slot are not looked at.
    pub open spec fn bad_cut(&self, i: int, start: int, length: Option<u64>) -> Option<nat> {
        let first = self.spec_layout().cut_first(i, start);
        let last = self.spec_layout().cut_last(i, start, length);
        if start != 0 && !is_char_boundary(self.bytes(), first) {
            Some(first as nat)
        } else if length is Some && !is_char_boundary(self.bytes(), last) {
            Some(last as nat)
        } else {
            None
        }
    }

    /// The place of the first cut inside a character, from slot `from` on.
    pub open spec fn first_bad_cut(&self, from: int, start: int, length: Option<u64>) -> Option<
        nat,
    >
        decreases self.spec_layout().spec_len() - from,
    {
        if from >= self.spec_layout().spec_len() {
            None
        } else if self.bad_cut(from, start, length) is Some {
            self.bad_cut(from, start, length)
        } else {
            self.first_bad_cut(from + 1, start, length)
        }
    }

    /// Makes an array of `len` elements of its buffers, beginning with element `offset`. Without
    /// `null_bits` no element is null.
    pub fn try_new(
        offsets: Vec<O>,
        values: String,
        null_bits: Option<Vec<u8>>,
        offset: usize,
        len: usize,
    ) -> (r: Result<GenericStringArray<O>, ArrowError>)
        ensures
            r is Ok <==> {
                &&& parts_fit(
                    offsets@,
                    null_bits,
                    offset as int,
                    len as int,
                    encode_utf8(values@).len() as int,
                )
                &&& forall|i: int|
                    offset <= i <= offset + len ==> is_char_boundary(
                        encode_utf8(values@),
                        (#[trigger] offsets@[i]).value(),
                    )
            },
            r is Ok <==> {
                &&& offset + len < offsets@.len()
                &&& forall|i: int, j: int|
                    offset <= i <= j <= offset + len ==> 0 <= (#[trigger] offsets@[i]).value() <= (
                    #[trigger] offsets@[j]).value() <= encode_utf8(values@).len()
                &&& null_bits matches Some(b) ==> offset + len <= b@.len() * 8
                &&& forall|i: int|
                    offset <= i <= offset + len ==> is_char_boundary(
                        encode_utf8(values@),
                        (#[trigger] offsets@[i]).value(),
                    )
            },
            r matches Ok(a) ==> {
                &&& a.wf()
                &&& a.chars() == values@
                &&& a.spec_layout().nullable() == (null_bits is Some)
                &&& a.spec_layout().spec_len() == len
                &&& forall|i: int|
                    0 <= i <= len ==> #[trigger] a.spec_layout().bound(i) == offsets@[offset
                        + i].value()
                &&& forall|i: int|
                    0 <= i < len ==> #[trigger] a.spec_layout().valid(i) == bit_set(
                        null_bits,
                        offset + i,
                    )
                &&& a@.len() == len
                &&& forall|i: int|
                    0 <= i < len ==> #[trigger] a@[i] == (if (match null_bits {
                        Some(b) => bits_of(b@)[offset + i],
                        None => true,
                    }) {
                        Some(
                            encode_utf8(values@).subrange(
                                offsets@[offset + i].value(),
                                offsets@[offset + i + 1].value(),
                            ),
                        )
                    } else {
                        None
                    })
                &&& forall|i: int|
                    0 <= i < len ==> #[trigger] a.spec_layout().slot(a.bytes(), i)
                        == encode_utf8(values@).subrange(
                        offsets@[offset + i].value(),
                        offsets@[offset + i + 1].value(),
                    )
            },
            r matches Err(e) ==> e is InvalidArgumentError,
    {
        let size: usize = values.as_str().as_bytes().len();
        let layout = match Layout::try_new(offsets, null_bits, offset, len, size) {
            Ok(layout) => layout,
            Err(e) => {
                return Err(e);
            },
        };
        let mut i: usize = 0;
        while i <= len
            invariant
                layout.wf(),
                layout.spec_len() == len,
                i <= len + 1,
                forall|k: int| 0 <= k <= len ==> #[trigger] layout.bound(k) == offsets@[offset
                    + k].value(),
                forall|k: int|
                    0 <= k < i ==> is_char_boundary(
                        encode_utf8(values@),
                        #[trigger] layout.bound(k),
                    ),
            decreases len + 1 - i,
        {
            if !values.as_str().is_char_boundary(layout.get_bound(i)) {
                assert(!is_char_boundary(encode_utf8(values@), offsets@[offset + i].value()));
                return Err(
                    ArrowError::InvalidArgumentError("an offset splits a character".to_owned()),
                );
            }
            i += 1;
        }
        proof {
            assert forall|k: int| offset <= k <= offset + len implies is_char_boundary(
                encode_utf8(values@),
                (#[trigger] offsets@[k]).value(),
            ) by {
                assert(layout.bound(k - offset) == offsets@[k].value());
            }
        }
        Ok(GenericStringArray { layout, values })
    }

    /// An array with the given layout and value buffer.
    pub(crate) fn from_parts(layout: Layout<O>, values: String) -> (r: GenericStringArray<O>)
        requires
            layout.wf(),
            layout.bound(layout.spec_len() as int) <= encode_utf8(values@).len(),
            forall|i: int|
                0 <= i <= layout.spec_len() ==> is_char_boundary(
                    encode_utf8(values@),
                    #[trigger] layout.bound(i),
                ),
        ensures
            r.wf(),
            r.spec_layout() == layout,
            r.chars() == values@,
    {
        GenericStringArray { layout, values }
    }

    /// The number of elements.
    pub fn len(&self) -> (r: usize)
        ensures
            r == self@.len(),
    {
        self.layout.len()
    }

    /// Whether element `i` is null.
    pub fn is_null(&self, i: usize) -> (r: bool)
        requires
            self.wf(),
            i < self@.len(),
        ensures
            r == (self@[i as int] is None),
    {
        !self.layout.is_valid(i)
    }

    /// The text of slot `i`: that of element `i`, where it is not null.
    pub fn value(&self, i: usize) -> (r: &str)
        requires
            self.wf(),
            i < self@.len(),
        ensures
            encode_utf8(r@) == self.spec_layout().slot(self.bytes(), i as int),
            self@[i as int] matches Some(s) ==> encode_utf8(r@) == s,
    {
        let first: usize = self.layout.get_bound(i);
        let last: usize = self.layout.get_bound(i + 1);
        assert(self.layout.bound(i as int) <= self.layout.bound(i + 1));
        str_between(self.values.as_str(), first, last)
    }

    /// The offsets and validity bits.
    pub(crate) fn layout(&self) -> (r: &Layout<O>)
        ensures
            *r == self.spec_layout(),
    {
        &self.layout
    }

    /// The value buffer.
    pub(crate) fn value_data(&self) -> (r: &str)
        ensures
            r@ == self.chars(),
    {
        self.values.as_str()
    }
}

} // verus!
