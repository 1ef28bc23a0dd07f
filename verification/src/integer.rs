//! Arrays of integers, and the keys of dictionaries.

use vstd::prelude::*;

verus! {

/// An integer of any of the widths of an array.
pub trait Integer: Copy {
    /// The number.
    spec fn number(self) -> int;

    /// The number, in a type that holds all widths.
    fn to_i128(self) -> (r: i128)
        ensures
            r == self.number(),
    ;
}

impl Integer for i8 {
    open spec fn number(self) -> int {
        self as int
    }

    fn to_i128(self) -> (r: i128) {
        self as i128
    }
}

impl Integer for i16 {
    open spec fn number(self) -> int {
        self as int
    }

    fn to_i128(self) -> (r: i128) {
        self as i128
    }
}

impl Integer for i32 {
    open spec fn number(self) -> int {
        self as int
    }

    fn to_i128(self) -> (r: i128) {
        self as i128
    }
}

impl Integer for i64 {
    open spec fn number(self) -> int {
        self as int
    }

    fn to_i128(self) -> (r: i128) {
        self as i128
    }
}

impl Integer for u8 {
    open spec fn number(self) -> int {
        self as int
    }

    fn to_i128(self) -> (r: i128) {
        self as i128
    }
}

impl Integer for u16 {
    open spec fn number(self) -> int {
        self as int
    }

    fn to_i128(self) -> (r: i128) {
        self as i128
    }
}

impl Integer for u32 {
    open spec fn number(self) -> int {
        self as int
    }

    fn to_i128(self) -> (r: i128) {
        self as i128
    }
}

impl Integer for u64 {
    open spec fn number(self) -> int {
        self as int
    }

    fn to_i128(self) -> (r: i128) {
        self as i128
    }
}

/// The types of integers that an array can hold.
#[derive(Clone, Copy, Debug, PartialEq, Eq, Structural)]
pub enum IntegerType {
    Int8,
    Int16,
    Int32,
    Int64,
    UInt8,
    UInt16,
    UInt32,
    UInt64,
}

impl IntegerType {
    /// The name of the type.
    pub open spec fn spec_name(self) -> Seq<char> {
        match self {
            IntegerType::Int8 => "Int8"@,
            IntegerType::Int16 => "Int16"@,
            IntegerType::Int32 => "Int32"@,
            IntegerType::Int64 => "Int64"@,
            IntegerType::UInt8 => "UInt8"@,
            IntegerType::UInt16 => "UInt16"@,
            IntegerType::UInt32 => "UInt32"@,
            IntegerType::UInt64 => "UInt64"@,
        }
    }

    /// The name of the type.
    pub fn name(self) -> (r: &'static str)
        ensures
            r@ == self.spec_name(),
            match self {
                IntegerType::Int8 => r@ == "Int8"@,
                IntegerType::Int16 => r@ == "Int16"@,
                IntegerType::Int32 => r@ == "Int32"@,
                IntegerType::Int64 => r@ == "Int64"@,
                IntegerType::UInt8 => r@ == "UInt8"@,
                IntegerType::UInt16 => r@ == "UInt16"@,
                IntegerType::UInt32 => r@ == "UInt32"@,
                IntegerType::UInt64 => r@ == "UInt64"@,
            },
    {
        match self {
            IntegerType::Int8 => "Int8",
            IntegerType::Int16 => "Int16",
            IntegerType::Int32 => "Int32",
            IntegerType::Int64 => "Int64",
            IntegerType::UInt8 => "UInt8",
            IntegerType::UInt16 => "UInt16",
            IntegerType::UInt32 => "UInt32",
            IntegerType::UInt64 => "UInt64",
        }
    }
}

/// An array of integers of one type, some of which may be null.
#[derive(Debug)]
pub enum IntegerArray {
    Int8(Vec<Option<i8>>),
    Int16(Vec<Option<i16>>),
    Int32(Vec<Option<i32>>),
    Int64(Vec<Option<i64>>),
    UInt8(Vec<Option<u8>>),
    UInt16(Vec<Option<u16>>),
    UInt32(Vec<Option<u32>>),
    UInt64(Vec<Option<u64>>),
}

/// The numbers of a list, with `None` for a null.
pub open spec fn numbers<T: Integer>(v: Seq<Option<T>>) -> Seq<Option<int>> {
    Seq::new(
        v.len(),
        |i: int|
            match v[i] {
                Some(k) => Some(k.number()),
                None => None,
            },
    )
}

fn number_at<T: Integer>(v: &Vec<Option<T>>, i: usize) -> (r: Option<i128>)
    requires
        i < v@.len(),
    ensures
        match r {
            Some(k) => numbers(v@)[i as int] == Some(k as int),
            None => numbers(v@)[i as int] is None,
        },
{
    match v[i] {
        Some(k) => Some(k.to_i128()),
        None => None,
    }
}

fn copied<T: Integer>(v: &Vec<Option<T>>) -> (r: Vec<Option<T>>)
    ensures
        r@ == v@,
{
    let mut r: Vec<Option<T>> = Vec::with_capacity(v.len());
    let mut i: usize = 0;
    while i < v.len()
        invariant
            i <= v@.len(),
            r@ == v@.take(i as int),
        decreases v@.len() - i,
    {
        r.push(v[i]);
        assert(v@.take(i + 1) =~= v@.take(i as int).push(v@[i as int]));
        i += 1;
    }
    assert(v@.take(i as int) =~= v@);
    r
}

impl View for IntegerArray {
    type V = Seq<Option<int>>;

    /// The numbers, with `None` for a null.
    open spec fn view(&self) -> Seq<Option<int>> {
        match self {
            IntegerArray::Int8(v) => numbers(v@),
            IntegerArray::Int16(v) => numbers(v@),
            IntegerArray::Int32(v) => numbers(v@),
            IntegerArray::Int64(v) => numbers(v@),
            IntegerArray::UInt8(v) => numbers(v@),
            IntegerArray::UInt16(v) => numbers(v@),
            IntegerArray::UInt32(v) => numbers(v@),
            IntegerArray::UInt64(v) => numbers(v@),
        }
    }
}

impl IntegerArray {
    /// The type of the integers.
    pub open spec fn spec_type(&self) -> IntegerType {
        match self {
            IntegerArray::Int8(_) => IntegerType::Int8,
            IntegerArray::Int16(_) => IntegerType::Int16,
            IntegerArray::Int32(_) => IntegerType::Int32,
            IntegerArray::Int64(_) => IntegerType::Int64,
            IntegerArray::UInt8(_) => IntegerType::UInt8,
            IntegerArray::UInt16(_) => IntegerType::UInt16,
            IntegerArray::UInt32(_) => IntegerType::UInt32,
            IntegerArray::UInt64(_) => IntegerType::UInt64,
        }
    }

    /// The type of the integers.
    pub fn integer_type(&self) -> (r: IntegerType)
        ensures
            r == self.spec_type(),
            match self {
                IntegerArray::Int8(_) => r is Int8,
                IntegerArray::Int16(_) => r is Int16,
                IntegerArray::Int32(_) => r is Int32,
                IntegerArray::Int64(_) => r is Int64,
                IntegerArray::UInt8(_) => r is UInt8,
                IntegerArray::UInt16(_) => r is UInt16,
                IntegerArray::UInt32(_) => r is UInt32,
                IntegerArray::UInt64(_) => r is UInt64,
            },
    {
        match self {
            IntegerArray::Int8(_) => IntegerType::Int8,
            IntegerArray::Int16(_) => IntegerType::Int16,
            IntegerArray::Int32(_) => IntegerType::Int32,
            IntegerArray::Int64(_) => IntegerType::Int64,
            IntegerArray::UInt8(_) => IntegerType::UInt8,
            IntegerArray::UInt16(_) => IntegerType::UInt16,
            IntegerArray::UInt32(_) => IntegerType::UInt32,
            IntegerArray::UInt64(_) => IntegerType::UInt64,
        }
    }

    /// The number of elements.
    pub fn len(&self) -> (r: usize)
        ensures
            r == self@.len(),
            match self {
                IntegerArray::Int8(v) => r == v@.len(),
                IntegerArray::Int16(v) => r == v@.len(),
                IntegerArray::Int32(v) => r == v@.len(),
                IntegerArray::Int64(v) => r == v@.len(),
                IntegerArray::UInt8(v) => r == v@.len(),
                IntegerArray::UInt16(v) => r == v@.len(),
                IntegerArray::UInt32(v) => r == v@.len(),
                IntegerArray::UInt64(v) => r == v@.len(),
            },
    {
        match self {
            IntegerArray::Int8(v) => v.len(),
            IntegerArray::Int16(v) => v.len(),
            IntegerArray::Int32(v) => v.len(),
            IntegerArray::Int64(v) => v.len(),
            IntegerArray::UInt8(v) => v.len(),
            IntegerArray::UInt16(v) => v.len(),
            IntegerArray::UInt32(v) => v.len(),
            IntegerArray::UInt64(v) => v.len(),
        }
    }

    /// Element `i`, with `None` for a null.
    pub fn get(&self, i: usize) -> (r: Option<i128>)
        requires
            i < self@.len(),
        ensures
            match r {
                Some(k) => self@[i as int] == Some(k as int),
                None => self@[i as int] is None,
            },
            match self {
                IntegerArray::Int8(v) => match v@[i as int] {
                    Some(k) => r == Some(k as i128),
                    None => r is None,
                },
                IntegerArray::Int16(v) => match v@[i as int] {
                    Some(k) => r == Some(k as i128),
                    None => r is None,
                },
                IntegerArray::Int32(v) => match v@[i as int] {
                    Some(k) => r == Some(k as i128),
                    None => r is None,
                },
                IntegerArray::Int64(v) => match v@[i as int] {
                    Some(k) => r == Some(k as i128),
                    None => r is None,
                },
                IntegerArray::UInt8(v) => match v@[i as int] {
                    Some(k) => r == Some(k as i128),
                    None => r is None,
                },
                IntegerArray::UInt16(v) => match v@[i as int] {
                    Some(k) => r == Some(k as i128),
                    None => r is None,
                },
                IntegerArray::UInt32(v) => match v@[i as int] {
                    Some(k) => r == Some(k as i128),
                    None => r is None,
                },
                IntegerArray::UInt64(v) => match v@[i as int] {
                    Some(k) => r == Some(k as i128),
                    None => r is None,
                },
            },
    {
        match self {
            IntegerArray::Int8(v) => number_at(v, i),
            IntegerArray::Int16(v) => number_at(v, i),
            IntegerArray::Int32(v) => number_at(v, i),
            IntegerArray::Int64(v) => number_at(v, i),
            IntegerArray::UInt8(v) => number_at(v, i),
            IntegerArray::UInt16(v) => number_at(v, i),
            IntegerArray::UInt32(v) => number_at(v, i),
            IntegerArray::UInt64(v) => number_at(v, i),
        }
    }

    /// An array with the same elements.
    pub fn copy(&self) -> (r: IntegerArray)
        ensures
            r.spec_type() == self.spec_type(),
            r@ == self@,
            match (*self, r) {
                (IntegerArray::Int8(v), IntegerArray::Int8(w)) => w@ == v@,
                (IntegerArray::Int16(v), IntegerArray::Int16(w)) => w@ == v@,
                (IntegerArray::Int32(v), IntegerArray::Int32(w)) => w@ == v@,
                (IntegerArray::Int64(v), IntegerArray::Int64(w)) => w@ == v@,
                (IntegerArray::UInt8(v), IntegerArray::UInt8(w)) => w@ == v@,
                (IntegerArray::UInt16(v), IntegerArray::UInt16(w)) => w@ == v@,
                (IntegerArray::UInt32(v), IntegerArray::UInt32(w)) => w@ == v@,
                (IntegerArray::UInt64(v), IntegerArray::UInt64(w)) => w@ == v@,
                _ => false,
            },
    {
        match self {
            IntegerArray::Int8(v) => IntegerArray::Int8(copied(v)),
            IntegerArray::Int16(v) => IntegerArray::Int16(copied(v)),
            IntegerArray::Int32(v) => IntegerArray::Int32(copied(v)),
            IntegerArray::Int64(v) => IntegerArray::Int64(copied(v)),
            IntegerArray::UInt8(v) => IntegerArray::UInt8(copied(v)),
            IntegerArray::UInt16(v) => IntegerArray::UInt16(copied(v)),
            IntegerArray::UInt32(v) => IntegerArray::UInt32(copied(v)),
            IntegerArray::UInt64(v) => IntegerArray::UInt64(copied(v)),
        }
    }
}

} // verus!
