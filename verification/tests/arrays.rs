//! Making arrays of their buffers, and reading them.

use arrow_substring::array::{Array, DictionaryArray, OtherArray};
use arrow_substring::binary::{BinaryArray, LargeBinaryArray};
use arrow_substring::bitmap::{slice_validity, Bitmap};
use arrow_substring::error::{to_decimal, ArrowError};
use arrow_substring::fixed::FixedSizeBinaryArray;
use arrow_substring::integer::{IntegerArray, IntegerType};
use arrow_substring::offset::OffsetSizeTrait;
use arrow_substring::string::StringArray;
use arrow_substring::text::str_between;

fn refused<T: std::fmt::Debug>(r: Result<T, ArrowError>) -> String {
    match r {
        Err(ArrowError::InvalidArgumentError(m)) => m,
        other => panic!("not refused: {:?}", other),
    }
}

#[test]
fn bits_are_least_significant_first() {
    let map = Bitmap::new(vec![0b1000_0101, 0b0000_0010]);
    let bits: Vec<bool> = (0..16).map(|i| map.get(i)).collect();
    assert_eq!(
        bits,
        vec![
            true, false, true, false, false, false, false, true, false, true, false, false, false,
            false, false, false
        ]
    );
    assert!(map.covers(16));
    assert!(map.covers(0));
    assert!(!map.covers(17));
}

#[test]
fn bit_slice_crosses_bytes() {
    let map = Bitmap::new(vec![0b1010_0000, 0b0000_0101]);
    let own = map.bit_slice(5, 9);
    let bits: Vec<bool> = (0..9).map(|i| own.get(i)).collect();
    assert_eq!(bits, vec![true, false, true, true, false, true, false, false, false]);
    assert!(own.covers(16));
    assert!(!own.covers(17));
    assert!(!own.get(9));
}

#[test]
fn absent_bits_stay_absent() {
    assert!(slice_validity(&None, 3, 4).is_none());
    let own = slice_validity(&Some(Bitmap::new(vec![0b0110])), 1, 3).unwrap();
    assert!(own.get(0) && own.get(1) && !own.get(2));
}

#[test]
fn offsets_of_both_widths() {
    assert_eq!(OffsetSizeTrait::to_usize(7_i32), Some(7));
    assert_eq!(OffsetSizeTrait::to_usize(-1_i32), None);
    assert_eq!(OffsetSizeTrait::to_usize(-1_i64), None);
    assert_eq!(OffsetSizeTrait::to_usize(i64::MAX), Some(i64::MAX as usize));
    let wide: usize = i32::MAX as usize + 1;
    assert_eq!(<i32 as OffsetSizeTrait>::from_usize(wide - 1), Some(i32::MAX));
    assert_eq!(<i32 as OffsetSizeTrait>::from_usize(wide), None);
    assert_eq!(<i64 as OffsetSizeTrait>::from_usize(wide), Some(wide as i64));
    assert_eq!(<i64 as OffsetSizeTrait>::from_usize(usize::MAX), None);
}

#[test]
fn binary_parts_must_fit() {
    let make = |offsets: Vec<i32>, bits, offset, len| {
        BinaryArray::try_new(offsets, b"hello".to_vec(), bits, offset, len)
    };
    assert_eq!(refused(make(vec![], None, 0, 0)), "the offsets buffer is too short");
    assert_eq!(refused(make(vec![0, 5], None, 0, 2)), "the offsets buffer is too short");
    assert_eq!(refused(make(vec![0, 5], None, 1, 1)), "the offsets buffer is too short");
    assert_eq!(refused(make(vec![0, 5], None, usize::MAX, 1)), "the offsets buffer is too short");
    assert_eq!(refused(make(vec![0, 6], None, 0, 1)), "an offset is out of place");
    assert_eq!(refused(make(vec![-1, 5], None, 0, 1)), "an offset is out of place");
    assert_eq!(refused(make(vec![3, 2], None, 0, 1)), "an offset is out of place");
    assert_eq!(
        refused(make(vec![0; 10], Some(vec![0xff]), 0, 9)),
        "the null buffer is too short"
    );
    // what lies outside of the array does not count
    let array = make(vec![9, 1, 3, -4], Some(vec![0b10]), 1, 1).unwrap();
    assert_eq!(array.len(), 1);
    assert!(!array.is_null(0));
    assert_eq!(array.value(0), b"el");
    assert_eq!(make(vec![5], None, 0, 0).unwrap().len(), 0);
    assert!(LargeBinaryArray::try_new(vec![0, i64::MAX], vec![], None, 0, 1).is_err());
}

#[test]
fn string_bounds_must_not_split_characters() {
    let make = |offsets: Vec<i32>| {
        StringArray::try_new(offsets, "a²b".to_owned(), None, 0, 2)
    };
    let array = make(vec![0, 3, 4]).unwrap();
    assert_eq!(array.value(0), "a²");
    assert_eq!(array.value(1), "b");
    assert_eq!(refused(make(vec![0, 2, 4])), "an offset splits a character");
    assert_eq!(refused(make(vec![0, 3, 5])), "an offset is out of place");
}

#[test]
fn fixed_parts_must_fit() {
    let make = |width, bits, offset, len| {
        FixedSizeBinaryArray::try_new(width, b"abcdef".to_vec(), bits, offset, len)
    };
    assert_eq!(refused(make(-1, None, 0, 0)), "the value length is negative");
    assert_eq!(refused(make(0, None, usize::MAX, 1)), "the array is too long");
    assert_eq!(refused(make(2, None, 1, 3)), "the value buffer is too short");
    assert_eq!(refused(make(2, None, 0, usize::MAX)), "the value buffer is too short");
    assert_eq!(refused(make(0, Some(vec![0]), 0, 9)), "the null buffer is too short");
    let array = make(2, Some(vec![0b100]), 1, 2).unwrap();
    assert_eq!(array.len(), 2);
    assert_eq!(array.value_length(), 2);
    assert_eq!(array.value_offset(1), 4);
    assert!(array.is_null(0));
    assert_eq!(array.value(0), b"cd");
    assert!(!array.is_null(1));
    assert_eq!(array.value(1), b"ef");
}

#[test]
fn keys_must_be_indices_of_values() {
    let values = || Array::Other(OtherArray::new("Boolean", 2));
    let try_new = |keys| DictionaryArray::try_new(keys, values());
    assert_eq!(refused(try_new(IntegerArray::Int8(vec![Some(-1)]))), "a key is out of bounds");
    assert_eq!(
        refused(try_new(IntegerArray::UInt64(vec![Some(1), Some(u64::MAX)]))),
        "a key is out of bounds"
    );
    assert_eq!(refused(try_new(IntegerArray::Int64(vec![Some(2)]))), "a key is out of bounds");
    let dict = try_new(IntegerArray::Int16(vec![None, Some(1), Some(0)])).unwrap();
    assert_eq!(dict.keys().integer_type(), IntegerType::Int16);
    assert_eq!(dict.keys().get(0), None);
    assert_eq!(dict.keys().get(1), Some(1));
    assert_eq!(dict.values().len(), 2);
    assert_eq!(Array::Dictionary(dict).len(), 3);
}

#[test]
fn integers_of_all_types() {
    let arrays = vec![
        (IntegerArray::Int8(vec![Some(i8::MIN), None]), "Int8", i8::MIN as i128),
        (IntegerArray::Int16(vec![Some(i16::MIN), None]), "Int16", i16::MIN as i128),
        (IntegerArray::Int32(vec![Some(i32::MIN), None]), "Int32", i32::MIN as i128),
        (IntegerArray::Int64(vec![Some(i64::MIN), None]), "Int64", i64::MIN as i128),
        (IntegerArray::UInt8(vec![Some(u8::MAX), None]), "UInt8", u8::MAX as i128),
        (IntegerArray::UInt16(vec![Some(u16::MAX), None]), "UInt16", u16::MAX as i128),
        (IntegerArray::UInt32(vec![Some(u32::MAX), None]), "UInt32", u32::MAX as i128),
        (IntegerArray::UInt64(vec![Some(u64::MAX), None]), "UInt64", u64::MAX as i128),
    ];
    for (array, name, first) in arrays {
        let copy = array.copy();
        assert_eq!(copy.integer_type().name(), name);
        assert_eq!(copy.len(), 2);
        assert_eq!(copy.get(0), Some(first));
        assert_eq!(copy.get(1), None);
    }
}

#[test]
fn decimal_notation() {
    assert_eq!(to_decimal(0), "0");
    assert_eq!(to_decimal(9), "9");
    assert_eq!(to_decimal(10), "10");
    assert_eq!(to_decimal(1234567890), "1234567890");
    assert_eq!(to_decimal(usize::MAX), usize::MAX.to_string());
}

#[test]
fn error_text_names_the_kind() {
    let e = ArrowError::ComputeError("a".to_owned());
    assert_eq!(e.to_string(), "Compute error: a");
    let e = ArrowError::InvalidArgumentError("b".to_owned());
    assert_eq!(e.to_string(), "Invalid argument error: b");
}

#[test]
fn text_between_boundaries() {
    assert_eq!(str_between("a²b", 1, 3), "²");
    assert_eq!(str_between("a²b", 3, 3), "");
    assert_eq!(str_between("a²b", 0, 4), "a²b");
}
