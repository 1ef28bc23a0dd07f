//! Arrays of any type.

use crate::binary::{BinaryArray, LargeBinaryArray};
use crate::error::{boundary_message, unsupported_message, ArrowError};
use crate::fixed::FixedSizeBinaryArray;
use crate::integer::IntegerArray;
use crate::string::{LargeStringArray, StringArray};
use vstd::prelude::*;

verus! {

/// An array of one of the types that this crate tells apart.
#[derive(Debug)]
pub enum Array {
    Binary(BinaryArray),
    LargeBinary(LargeBinaryArray),
    FixedSizeBinary(FixedSizeBinaryArray),
    Utf8(StringArray),
    LargeUtf8(LargeStringArray),
    Dictionary(DictionaryArray),
    Integer(IntegerArray),
    Other(OtherArray),
}

/// An array of a type that is known here by its name alone.
#[derive(Debug)]
pub struct OtherArray {
    data_type: String,
    len: usize,
}

/// An array whose elements are kept once each, as `values`, and looked up by `keys`. An element
/// is null where its key is, and where the value under its key is.
#[derive(Debug)]
pub struct DictionaryArray {
    keys: IntegerArray,
    values: Box<Array>,
}

/// Whether each key that is not null is the index of one of `len` values.
pub open spec fn keys_fit(keys: Seq<Option<int>>, len: int) -> bool {
    forall|i: int|
        0 <= i < keys.len() ==> (#[trigger] keys[i] matches Some(k) ==> 0 <= k < len)
}

/// What the keys look up among the values.
pub open spec fn looked_up(keys: Seq<Option<int>>, values: Seq<Option<Seq<u8>>>) -> Seq<
    Option<Seq<u8>>,
> {
    Seq::new(
        keys.len(),
        |i: int|
            match keys[i] {
                Some(k) => values[k],
                None => None,
            },
    )
}

impl OtherArray {
    /// The name of the type.
    pub closed spec fn spec_type(&self) -> Seq<char> {
        self.data_type@
    }

    /// The number of elements.
    pub closed spec fn spec_len(&self) -> nat {
        self.len as nat
    }

    /// An array of `len` elements of the type of the given name.
    pub fn new(data_type: &str, len: usize) -> (r: OtherArray)
        ensures
            r.spec_type() == data_type@,
            r.spec_len() == len,
    {
        OtherArray { data_type: data_type.to_owned(), len }
    }

    /// The name of the type.
    pub fn data_type(&self) -> (r: &str)
        ensures
            r@ == self.spec_type(),
    {
        self.data_type.as_str()
    }

    /// The number of elements.
    pub fn len(&self) -> (r: usize)
        ensures
            r == self.spec_len(),
    {
        self.len
    }
}

impl DictionaryArray {
    /// The keys.
    pub closed spec fn spec_keys(&self) -> IntegerArray {
        self.keys
    }

    /// The values.
    pub closed spec fn spec_values(&self) -> Array {
        *self.values
    }

    /// Makes a dictionary of keys and values, where each key is null or the index of a value.
    pub fn try_new(keys: IntegerArray, values: Array) -> (r: Result<DictionaryArray, ArrowError>)
        ensures
            r is Ok <==> keys_fit(keys@, values.spec_len() as int),
            r is Ok <==> forall|i: int|
                0 <= i < keys@.len() ==> (#[trigger] keys@[i] matches Some(k) ==> 0 <= k
                    < values.spec_len()),
            r matches Ok(d) ==> d.spec_keys() == keys && d.spec_values() == values,
            r matches Err(e) ==> e is InvalidArgumentError,
    {
        let n: i128 = values.len() as i128;
        let mut i: usize = 0;
        while i < keys.len()
            invariant
                i <= keys@.len(),
                n == values.spec_len(),
                forall|j: int|
                    0 <= j < i ==> (#[trigger] keys@[j] matches Some(k) ==> 0 <= k < n),
            decreases keys@.len() - i,
        {
            match keys.get(i) {
                Some(k) if k < 0 || k >= n => {
                    assert(keys@[i as int] == Some(k as int));
                    return Err(
                        ArrowError::InvalidArgumentError("a key is out of bounds".to_owned()),
                    );
                },
                _ => {},
            }
            i += 1;
        }
        Ok(DictionaryArray { keys, values: Box::new(values) })
    }

    /// The keys.
    pub fn keys(&self) -> (r: &IntegerArray)
        ensures
            *r == self.spec_keys(),
    {
        &self.keys
    }

    /// The values.
    pub fn values(&self) -> (r: &Array)
        ensures
            *r == self.spec_values(),
    {
        &self.values
    }
}

impl Array {
    /// The number of elements.
    pub open spec fn spec_len(&self) -> nat {
        match self {
            Array::Binary(a) => a@.len(),
            Array::LargeBinary(a) => a@.len(),
            Array::FixedSizeBinary(a) => a@.len(),
            Array::Utf8(a) => a@.len(),
            Array::LargeUtf8(a) => a@.len(),
            Array::Dictionary(d) => d.spec_keys()@.len(),
            Array::Integer(a) => a@.len(),
            Array::Other(a) => a.spec_len(),
        }
    }

    /// How many dictionaries are nested in each other.
    pub open spec fn depth(&self) -> nat
        decreases self,
    {
        match self {
            Array::Dictionary(d) => d.spec_values().depth() + 1,
            _ => 0,
        }
    }

    /// The buffers fit together, and the keys of a dictionary fit its values.
    pub open spec fn wf(&self) -> bool
        decreases self,
    {
        match self {
            Array::Binary(a) => a.wf(),
            Array::LargeBinary(a) => a.wf(),
            Array::FixedSizeBinary(a) => a.wf(),
            Array::Utf8(a) => a.wf(),
            Array::LargeUtf8(a) => a.wf(),
            Array::Dictionary(d) => {
                &&& keys_fit(d.spec_keys()@, d.spec_values().spec_len() as int)
                &&& d.spec_values().wf()
            },
            Array::Integer(_) => true,
            Array::Other(_) => true,
        }
    }

    /// Whether the elements are byte strings or texts, kept in place or in a dictionary.
    pub open spec fn has_substrings(&self) -> bool
        decreases self,
    {
        match self {
            Array::Binary(_) => true,
            Array::LargeBinary(_) => true,
            Array::FixedSizeBinary(_) => true,
            Array::Utf8(_) => true,
            Array::LargeUtf8(_) => true,
            Array::Dictionary(d) => d.spec_values().has_substrings(),
            Array::Integer(_) => false,
            Array::Other(_) => false,
        }
    }

    /// The elements as byte strings, with `None` for a null one.
    pub open spec fn elements(&self) -> Seq<Option<Seq<u8>>>
        recommends
            self.has_substrings(),
        decreases self,
    {
        match self {
            Array::Binary(a) => a@,
            Array::LargeBinary(a) => a@,
            Array::FixedSizeBinary(a) => a@,
            Array::Utf8(a) => a@,
            Array::LargeUtf8(a) => a@,
            Array::Dictionary(d) => looked_up(d.spec_keys()@, d.spec_values().elements()),
            Array::Integer(_) => Seq::empty(),
            Array::Other(_) => Seq::empty(),
        }
    }

    /// Whether this array holds the substrings of all elements of another, in an array of the
    /// same type. A dictionary keeps its keys.
    pub open spec fn is_substring_of(&self, from: Array, start: int, length: Option<u64>) -> bool
        decreases self,
    {
        match (self, from) {
            (Array::Binary(r), Array::Binary(a)) => r.is_substring_of(a, start, length),
            (Array::LargeBinary(r), Array::LargeBinary(a)) => r.is_substring_of(a, start, length),
            (Array::FixedSizeBinary(r), Array::FixedSizeBinary(a)) => r.is_substring_of(
                a,
                start,
                length,
            ),
            (Array::Utf8(r), Array::Utf8(a)) => r.is_substring_of(a, start, length),
            (Array::LargeUtf8(r), Array::LargeUtf8(a)) => r.is_substring_of(a, start, length),
            (Array::Dictionary(r), Array::Dictionary(a)) => {
                &&& r.spec_keys().spec_type() == a.spec_keys().spec_type()
                &&& r.spec_keys()@ == a.spec_keys()@
                &&& r.spec_values().is_substring_of(a.spec_values(), start, length)
            },
            _ => false,
        }
    }

    /// The message with which taking substrings fails, if it does: where the elements are of a
    /// type that has no substrings, and where a text would be cut inside a character.
    pub open spec fn failure(&self, start: int, length: Option<u64>) -> Option<Seq<char>>
        decreases self,
    {
        match self {
            Array::Binary(_) => None,
            Array::LargeBinary(_) => None,
            Array::FixedSizeBinary(_) => None,
            Array::Utf8(a) => match a.first_bad_cut(0, start, length) {
                Some(at) => Some(boundary_message(at)),
                None => None,
            },
            Array::LargeUtf8(a) => match a.first_bad_cut(0, start, length) {
                Some(at) => Some(boundary_message(at)),
                None => None,
            },
            Array::Dictionary(d) => d.spec_values().failure(start, length),
            Array::Integer(a) => Some(unsupported_message(a.spec_type().spec_name())),
            Array::Other(a) => Some(unsupported_message(a.spec_type())),
        }
    }

    /// The number of elements.
    pub fn len(&self) -> (r: usize)
        ensures
            r == self.spec_len(),
            match self {
                Array::Binary(a) => r == a@.len(),
                Array::LargeBinary(a) => r == a@.len(),
                Array::FixedSizeBinary(a) => r == a@.len(),
                Array::Utf8(a) => r == a@.len(),
                Array::LargeUtf8(a) => r == a@.len(),
                Array::Dictionary(d) => r == d.spec_keys()@.len(),
                Array::Integer(a) => r == a@.len(),
                Array::Other(a) => r == a.spec_len(),
            },
    {
        match self {
            Array::Binary(a) => a.len(),
            Array::LargeBinary(a) => a.len(),
            Array::FixedSizeBinary(a) => a.len(),
            Array::Utf8(a) => a.len(),
            Array::LargeUtf8(a) => a.len(),
            Array::Dictionary(d) => d.keys.len(),
            Array::Integer(a) => a.len(),
            Array::Other(a) => a.len(),
        }
    }
}

} // verus!
