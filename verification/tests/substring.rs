//! The substring kernel on arrays of all types.

use arrow_substring::array::{Array, DictionaryArray};
use arrow_substring::binary::GenericBinaryArray;
use arrow_substring::fixed::FixedSizeBinaryArray;
use arrow_substring::integer::IntegerArray;
use arrow_substring::offset::OffsetSizeTrait;
use arrow_substring::string::GenericStringArray;
use arrow_substring::substring::substring;

/// Packs validity bits, the first one least significant.
fn pack(bits: Vec<bool>) -> Vec<u8> {
    let mut bytes: Vec<u8> = vec![0; (bits.len() + 7) / 8];
    for (i, bit) in bits.iter().enumerate() {
        if *bit {
            bytes[i / 8] |= 1 << (i % 8);
        }
    }
    bytes
}

/// An offset width, with the arrays that have it.
trait Width: OffsetSizeTrait + std::fmt::Debug {
    fn wrap_binary(array: GenericBinaryArray<Self>) -> Array;
    fn unwrap_binary(array: &Array) -> &GenericBinaryArray<Self>;
    fn wrap_string(array: GenericStringArray<Self>) -> Array;
    fn unwrap_string(array: &Array) -> &GenericStringArray<Self>;
}

impl Width for i32 {
    fn wrap_binary(array: GenericBinaryArray<i32>) -> Array {
        Array::Binary(array)
    }

    fn unwrap_binary(array: &Array) -> &GenericBinaryArray<i32> {
        match array {
            Array::Binary(a) => a,
            _ => panic!("not a binary array"),
        }
    }

    fn wrap_string(array: GenericStringArray<i32>) -> Array {
        Array::Utf8(array)
    }

    fn unwrap_string(array: &Array) -> &GenericStringArray<i32> {
        match array {
            Array::Utf8(a) => a,
            _ => panic!("not a string array"),
        }
    }
}

impl Width for i64 {
    fn wrap_binary(array: GenericBinaryArray<i64>) -> Array {
        Array::LargeBinary(array)
    }

    fn unwrap_binary(array: &Array) -> &GenericBinaryArray<i64> {
        match array {
            Array::LargeBinary(a) => a,
            _ => panic!("not a large binary array"),
        }
    }

    fn wrap_string(array: GenericStringArray<i64>) -> Array {
        Array::LargeUtf8(array)
    }

    fn unwrap_string(array: &Array) -> &GenericStringArray<i64> {
        match array {
            Array::LargeUtf8(a) => a,
            _ => panic!("not a large string array"),
        }
    }
}

/// Offsets, bytes and validity bits of a list of elements.
fn buffers<O: OffsetSizeTrait>(items: &[Option<&[u8]>]) -> (Vec<O>, Vec<u8>, Vec<u8>) {
    let mut offsets: Vec<O> = vec![O::from_usize(0).unwrap()];
    let mut values: Vec<u8> = vec![];
    for item in items {
        values.extend_from_slice(item.unwrap_or(&[]));
        offsets.push(O::from_usize(values.len()).unwrap());
    }
    let bits = pack(items.iter().map(|item| item.is_some()).collect());
    (offsets, values, bits)
}

fn binary_from<O: OffsetSizeTrait>(items: Vec<Option<&[u8]>>) -> GenericBinaryArray<O> {
    let (offsets, values, bits) = buffers(&items);
    GenericBinaryArray::try_new(offsets, values, Some(bits), 0, items.len()).unwrap()
}

fn binary_from_values<O: OffsetSizeTrait>(items: Vec<&[u8]>) -> GenericBinaryArray<O> {
    let items: Vec<Option<&[u8]>> = items.into_iter().map(Some).collect();
    let (offsets, values, _) = buffers(&items);
    GenericBinaryArray::try_new(offsets, values, None, 0, items.len()).unwrap()
}

fn string_from<O: OffsetSizeTrait>(items: Vec<Option<&str>>) -> GenericStringArray<O> {
    let items: Vec<Option<&[u8]>> = items.iter().map(|s| s.map(|s| s.as_bytes())).collect();
    let (offsets, values, bits) = buffers(&items);
    let values = String::from_utf8(values).unwrap();
    GenericStringArray::try_new(offsets, values, Some(bits), 0, items.len()).unwrap()
}

fn string_from_values<O: OffsetSizeTrait>(items: Vec<&str>) -> GenericStringArray<O> {
    let items: Vec<Option<&[u8]>> = items.iter().map(|s| Some(s.as_bytes())).collect();
    let (offsets, values, _) = buffers(&items);
    let values = String::from_utf8(values).unwrap();
    GenericStringArray::try_new(offsets, values, None, 0, items.len()).unwrap()
}

/// An array of the length of the first element that is not null.
fn fixed_from(items: Vec<Option<&[u8]>>, nullable: bool) -> FixedSizeBinaryArray {
    let width: usize = items.iter().flatten().next().map_or(0, |s| s.len());
    let mut values: Vec<u8> = vec![];
    for item in &items {
        match item {
            Some(s) => {
                assert_eq!(s.len(), width);
                values.extend_from_slice(s);
            }
            None => values.resize(values.len() + width, 0),
        }
    }
    let bits = if nullable {
        Some(pack(items.iter().map(|item| item.is_some()).collect()))
    } else {
        None
    };
    FixedSizeBinaryArray::try_new(width as i32, values, bits, 0, items.len()).unwrap()
}

fn binary_elements<O: OffsetSizeTrait>(array: &GenericBinaryArray<O>) -> Vec<Option<Vec<u8>>> {
    (0..array.len())
        .map(|i| if array.is_null(i) { None } else { Some(array.value(i).to_vec()) })
        .collect()
}

fn string_elements<O: OffsetSizeTrait>(array: &GenericStringArray<O>) -> Vec<Option<String>> {
    (0..array.len())
        .map(|i| if array.is_null(i) { None } else { Some(array.value(i).to_owned()) })
        .collect()
}

fn fixed_elements(array: &FixedSizeBinaryArray) -> Vec<Option<Vec<u8>>> {
    (0..array.len())
        .map(|i| if array.is_null(i) { None } else { Some(array.value(i).to_vec()) })
        .collect()
}

fn unwrap_fixed(array: &Array) -> &FixedSizeBinaryArray {
    match array {
        Array::FixedSizeBinary(a) => a,
        _ => panic!("not a fixed size binary array"),
    }
}

fn with_nulls_generic_binary<O: Width>() {
    let cases: Vec<(Vec<Option<&[u8]>>, i64, Option<u64>, Vec<Option<&[u8]>>)> = vec![
        // all-nulls array is always identical
        (vec![None, None, None], -1, Some(1), vec![None, None, None]),
        // identity
        (
            vec![Some(b"hello"), None, Some(&[0xf8, 0xf9, 0xff, 0xfa])],
            0,
            None,
            vec![Some(b"hello"), None, Some(&[0xf8, 0xf9, 0xff, 0xfa])],
        ),
        // 0 length -> Nothing
        (
            vec![Some(b"hello"), None, Some(&[0xf8, 0xf9, 0xff, 0xfa])],
            0,
            Some(0),
            vec![Some(&[]), None, Some(&[])],
        ),
        // high start -> Nothing
        (
            vec![Some(b"hello"), None, Some(&[0xf8, 0xf9, 0xff, 0xfa])],
            1000,
            Some(0),
            vec![Some(&[]), None, Some(&[])],
        ),
        // high negative start -> identity
        (
            vec![Some(b"hello"), None, Some(&[0xf8, 0xf9, 0xff, 0xfa])],
            -1000,
            None,
            vec![Some(b"hello"), None, Some(&[0xf8, 0xf9, 0xff, 0xfa])],
        ),
        // high length -> identity
        (
            vec![Some(b"hello"), None, Some(&[0xf8, 0xf9, 0xff, 0xfa])],
            0,
            Some(1000),
            vec![Some(b"hello"), None, Some(&[0xf8, 0xf9, 0xff, 0xfa])],
        ),
    ];

    for (array, start, length, expected) in cases {
        let array = O::wrap_binary(binary_from::<O>(array));
        let result = substring(&array, start, length).unwrap();
        assert_eq!(array.len(), result.len());
        let expected = binary_from::<O>(expected);
        assert_eq!(binary_elements(&expected), binary_elements(O::unwrap_binary(&result)));
    }
}

#[test]
fn with_nulls_binary() {
    with_nulls_generic_binary::<i32>();
}

#[test]
fn with_nulls_large_binary() {
    with_nulls_generic_binary::<i64>();
}

fn without_nulls_generic_binary<O: Width>() {
    let cases: Vec<(Vec<&[u8]>, i64, Option<u64>, Vec<&[u8]>)> = vec![
        // empty array is always identical
        (vec![b"", b"", b""], 2, Some(1), vec![b"", b"", b""]),
        // increase start
        (
            vec![b"hello", b"", &[0xf8, 0xf9, 0xff, 0xfa]],
            0,
            None,
            vec![b"hello", b"", &[0xf8, 0xf9, 0xff, 0xfa]],
        ),
        (
            vec![b"hello", b"", &[0xf8, 0xf9, 0xff, 0xfa]],
            1,
            None,
            vec![b"ello", b"", &[0xf9, 0xff, 0xfa]],
        ),
        (
            vec![b"hello", b"", &[0xf8, 0xf9, 0xff, 0xfa]],
            2,
            None,
            vec![b"llo", b"", &[0xff, 0xfa]],
        ),
        (
            vec![b"hello", b"", &[0xf8, 0xf9, 0xff, 0xfa]],
            3,
            None,
            vec![b"lo", b"", &[0xfa]],
        ),
        (
            vec![b"hello", b"", &[0xf8, 0xf9, 0xff, 0xfa]],
            10,
            None,
            vec![b"", b"", b""],
        ),
        // increase start negatively
        (
            vec![b"hello", b"", &[0xf8, 0xf9, 0xff, 0xfa]],
            -1,
            None,
            vec![b"o", b"", &[0xfa]],
        ),
        (
            vec![b"hello", b"", &[0xf8, 0xf9, 0xff, 0xfa]],
            -2,
            None,
            vec![b"lo", b"", &[0xff, 0xfa]],
        ),
        (
            vec![b"hello", b"", &[0xf8, 0xf9, 0xff, 0xfa]],
            -3,
            None,
            vec![b"llo", b"", &[0xf9, 0xff, 0xfa]],
        ),
        (
            vec![b"hello", b"", &[0xf8, 0xf9, 0xff, 0xfa]],
            -10,
            None,
            vec![b"hello", b"", &[0xf8, 0xf9, 0xff, 0xfa]],
        ),
        // increase length
        (
            vec![b"hello", b"", &[0xf8, 0xf9, 0xff, 0xfa]],
            1,
            Some(1),
            vec![b"e", b"", &[0xf9]],
        ),
        (
            vec![b"hello", b"", &[0xf8, 0xf9, 0xff, 0xfa]],
            1,
            Some(2),
            vec![b"el", b"", &[0xf9, 0xff]],
        ),
        (
            vec![b"hello", b"", &[0xf8, 0xf9, 0xff, 0xfa]],
            1,
            Some(3),
            vec![b"ell", b"", &[0xf9, 0xff, 0xfa]],
        ),
        (
            vec![b"hello", b"", &[0xf8, 0xf9, 0xff, 0xfa]],
            1,
            Some(4),
            vec![b"ello", b"", &[0xf9, 0xff, 0xfa]],
        ),
        (
            vec![b"hello", b"", &[0xf8, 0xf9, 0xff, 0xfa]],
            -3,
            Some(1),
            vec![b"l", b"", &[0xf9]],
        ),
        (
            vec![b"hello", b"", &[0xf8, 0xf9, 0xff, 0xfa]],
            -3,
            Some(2),
            vec![b"ll", b"", &[0xf9, 0xff]],
        ),
        (
            vec![b"hello", b"", &[0xf8, 0xf9, 0xff, 0xfa]],
            -3,
            Some(3),
            vec![b"llo", b"", &[0xf9, 0xff, 0xfa]],
        ),
        (
            vec![b"hello", b"", &[0xf8, 0xf9, 0xff, 0xfa]],
            -3,
            Some(4),
            vec![b"llo", b"", &[0xf9, 0xff, 0xfa]],
        ),
    ];

    for (array, start, length, expected) in cases {
        let array = O::wrap_binary(binary_from_values::<O>(array));
        let result = substring(&array, start, length).unwrap();
        assert_eq!(array.len(), result.len());
        let expected = binary_from_values::<O>(expected);
        assert_eq!(binary_elements(&expected), binary_elements(O::unwrap_binary(&result)));
    }
}

#[test]
fn without_nulls_binary() {
    without_nulls_generic_binary::<i32>();
}

#[test]
fn without_nulls_large_binary() {
    without_nulls_generic_binary::<i64>();
}

#[test]
fn with_nulls_fixed_size_binary() {
    let cases: Vec<(Vec<Option<&[u8]>>, i64, Option<u64>, Vec<Option<&[u8]>>)> = vec![
        // all-nulls array is always identical
        (vec![None, None, None], 3, Some(2), vec![None, None, None]),
        // increase start
        (
            vec![Some(b"cat"), None, Some(&[0xf8, 0xf9, 0xff])],
            0,
            None,
            vec![Some(b"cat"), None, Some(&[0xf8, 0xf9, 0xff])],
        ),
        (
            vec![Some(b"cat"), None, Some(&[0xf8, 0xf9, 0xff])],
            1,
            None,
            vec![Some(b"at"), None, Some(&[0xf9, 0xff])],
        ),
        (
            vec![Some(b"cat"), None, Some(&[0xf8, 0xf9, 0xff])],
            2,
            None,
            vec![Some(b"t"), None, Some(&[0xff])],
        ),
        (
            vec![Some(b"cat"), None, Some(&[0xf8, 0xf9, 0xff])],
            3,
            None,
            vec![Some(b""), None, Some(&[])],
        ),
        (
            vec![Some(b"cat"), None, Some(&[0xf8, 0xf9, 0xff])],
            10,
            None,
            vec![Some(b""), None, Some(b"")],
        ),
        // increase start negatively
        (
            vec![Some(b"cat"), None, Some(&[0xf8, 0xf9, 0xff])],
            -1,
            None,
            vec![Some(b"t"), None, Some(&[0xff])],
        ),
        (
            vec![Some(b"cat"), None, Some(&[0xf8, 0xf9, 0xff])],
            -2,
            None,
            vec![Some(b"at"), None, Some(&[0xf9, 0xff])],
        ),
        (
            vec![Some(b"cat"), None, Some(&[0xf8, 0xf9, 0xff])],
            -3,
            None,
            vec![Some(b"cat"), None, Some(&[0xf8, 0xf9, 0xff])],
        ),
        (
            vec![Some(b"cat"), None, Some(&[0xf8, 0xf9, 0xff])],
            -10,
            None,
            vec![Some(b"cat"), None, Some(&[0xf8, 0xf9, 0xff])],
        ),
        // increase length
        (
            vec![Some(b"cat"), None, Some(&[0xf8, 0xf9, 0xff])],
            1,
            Some(1),
            vec![Some(b"a"), None, Some(&[0xf9])],
        ),
        (
            vec![Some(b"cat"), None, Some(&[0xf8, 0xf9, 0xff])],
            1,
            Some(2),
            vec![Some(b"at"), None, Some(&[0xf9, 0xff])],
        ),
        (
            vec![Some(b"cat"), None, Some(&[0xf8, 0xf9, 0xff])],
            1,
            Some(3),
            vec![Some(b"at"), None, Some(&[0xf9, 0xff])],
        ),
        (
            vec![Some(b"cat"), None, Some(&[0xf8, 0xf9, 0xff])],
            -3,
            Some(1),
            vec![Some(b"c"), None, Some(&[0xf8])],
        ),
        (
            vec![Some(b"cat"), None, Some(&[0xf8, 0xf9, 0xff])],
            -3,
            Some(2),
            vec![Some(b"ca"), None, Some(&[0xf8, 0xf9])],
        ),
        (
            vec![Some(b"cat"), None, Some(&[0xf8, 0xf9, 0xff])],
            -3,
            Some(3),
            vec![Some(b"cat"), None, Some(&[0xf8, 0xf9, 0xff])],
        ),
        (
            vec![Some(b"cat"), None, Some(&[0xf8, 0xf9, 0xff])],
            -3,
            Some(4),
            vec![Some(b"cat"), None, Some(&[0xf8, 0xf9, 0xff])],
        ),
    ];

    for (array, start, length, expected) in cases {
        let array = Array::FixedSizeBinary(fixed_from(array, true));
        let result = substring(&array, start, length).unwrap();
        assert_eq!(array.len(), result.len());
        let result = unwrap_fixed(&result);
        let expected = fixed_from(expected, true);
        assert_eq!(expected.value_length(), result.value_length());
        assert_eq!(fixed_elements(&expected), fixed_elements(result));
    }
}

#[test]
fn without_nulls_fixed_size_binary() {
    let cases: Vec<(Vec<&[u8]>, i64, Option<u64>, Vec<&[u8]>)> = vec![
        // empty array is always identical
        (vec![b"", b"", &[]], 3, Some(2), vec![b"", b"", &[]]),
        // increase start
        (
            vec![b"cat", b"dog", &[0xf8, 0xf9, 0xff]],
            0,
            None,
            vec![b"cat", b"dog", &[0xf8, 0xf9, 0xff]],
        ),
        (
            vec![b"cat", b"dog", &[0xf8, 0xf9, 0xff]],
            1,
            None,
            vec![b"at", b"og", &[0xf9, 0xff]],
        ),
        (
            vec![b"cat", b"dog", &[0xf8, 0xf9, 0xff]],
            2,
            None,
            vec![b"t", b"g", &[0xff]],
        ),
        (
            vec![b"cat", b"dog", &[0xf8, 0xf9, 0xff]],
            3,
            None,
            vec![b"", b"", &[]],
        ),
        (
            vec![b"cat", b"dog", &[0xf8, 0xf9, 0xff]],
            10,
            None,
            vec![b"", b"", b""],
        ),
        // increase start negatively
        (
            vec![b"cat", b"dog", &[0xf8, 0xf9, 0xff]],
            -1,
            None,
            vec![b"t", b"g", &[0xff]],
        ),
        (
            vec![b"cat", b"dog", &[0xf8, 0xf9, 0xff]],
            -2,
            None,
            vec![b"at", b"og", &[0xf9, 0xff]],
        ),
        (
            vec![b"cat", b"dog", &[0xf8, 0xf9, 0xff]],
            -3,
            None,
            vec![b"cat", b"dog", &[0xf8, 0xf9, 0xff]],
        ),
        (
            vec![b"cat", b"dog", &[0xf8, 0xf9, 0xff]],
            -10,
            None,
            vec![b"cat", b"dog", &[0xf8, 0xf9, 0xff]],
        ),
        // increase length
        (
            vec![b"cat", b"dog", &[0xf8, 0xf9, 0xff]],
            1,
            Some(1),
            vec![b"a", b"o", &[0xf9]],
        ),
        (
            vec![b"cat", b"dog", &[0xf8, 0xf9, 0xff]],
            1,
            Some(2),
            vec![b"at", b"og", &[0xf9, 0xff]],
        ),
        (
            vec![b"cat", b"dog", &[0xf8, 0xf9, 0xff]],
            1,
            Some(3),
            vec![b"at", b"og", &[0xf9, 0xff]],
        ),
        (
            vec![b"cat", b"dog", &[0xf8, 0xf9, 0xff]],
            -3,
            Some(1),
            vec![b"c", b"d", &[0xf8]],
        ),
        (
            vec![b"cat", b"dog", &[0xf8, 0xf9, 0xff]],
            -3,
            Some(2),
            vec![b"ca", b"do", &[0xf8, 0xf9]],
        ),
        (
            vec![b"cat", b"dog", &[0xf8, 0xf9, 0xff]],
            -3,
            Some(3),
            vec![b"cat", b"dog", &[0xf8, 0xf9, 0xff]],
        ),
        (
            vec![b"cat", b"dog", &[0xf8, 0xf9, 0xff]],
            -3,
            Some(4),
            vec![b"cat", b"dog", &[0xf8, 0xf9, 0xff]],
        ),
    ];

    for (array, start, length, expected) in cases {
        let array = array.into_iter().map(Some).collect();
        let array = Array::FixedSizeBinary(fixed_from(array, false));
        let result = substring(&array, start, length).unwrap();
        assert_eq!(array.len(), result.len());
        let result = unwrap_fixed(&result);
        let expected = fixed_from(expected.into_iter().map(Some).collect(), false);
        assert_eq!(expected.value_length(), result.value_length());
        assert_eq!(fixed_elements(&expected), fixed_elements(result));
    }
}

#[test]
fn offset_fixed_size_binary() {
    let values: [u8; 15] = *b"hellotherearrow";
    // set the first and third element to be valid
    let bits_v = [0b101_u8];

    // array is `[null, "arrow"]`
    let array =
        FixedSizeBinaryArray::try_new(5, values.to_vec(), Some(bits_v.to_vec()), 1, 2).unwrap();
    // result is `[null, "rrow"]`
    let result = substring(&Array::FixedSizeBinary(array), 1, None).unwrap();
    let result = unwrap_fixed(&result);
    let expected = fixed_from(vec![None, Some(b"rrow")], true);
    assert_eq!(expected.value_length(), result.value_length());
    assert_eq!(fixed_elements(result), fixed_elements(&expected));
}

fn with_nulls_generic_string<O: Width>() {
    let cases = vec![
        // all-nulls array is always identical
        (vec![None, None, None], 0, None, vec![None, None, None]),
        // identity
        (
            vec![Some("hello"), None, Some("word")],
            0,
            None,
            vec![Some("hello"), None, Some("word")],
        ),
        // 0 length -> Nothing
        (
            vec![Some("hello"), None, Some("word")],
            0,
            Some(0),
            vec![Some(""), None, Some("")],
        ),
        // high start -> Nothing
        (
            vec![Some("hello"), None, Some("word")],
            1000,
            Some(0),
            vec![Some(""), None, Some("")],
        ),
        // high negative start -> identity
        (
            vec![Some("hello"), None, Some("word")],
            -1000,
            None,
            vec![Some("hello"), None, Some("word")],
        ),
        // high length -> identity
        (
            vec![Some("hello"), None, Some("word")],
            0,
            Some(1000),
            vec![Some("hello"), None, Some("word")],
        ),
    ];

    for (array, start, length, expected) in cases {
        let array = O::wrap_string(string_from::<O>(array));
        let result = substring(&array, start, length).unwrap();
        assert_eq!(array.len(), result.len());
        let expected = string_from::<O>(expected);
        assert_eq!(string_elements(&expected), string_elements(O::unwrap_string(&result)));
    }
}

#[test]
fn with_nulls_string() {
    with_nulls_generic_string::<i32>();
}

#[test]
fn with_nulls_large_string() {
    with_nulls_generic_string::<i64>();
}

fn without_nulls_generic_string<O: Width>() {
    let cases = vec![
        // empty array is always identical
        (vec!["", "", ""], 0, None, vec!["", "", ""]),
        // increase start
        (
            vec!["hello", "", "word"],
            0,
            None,
            vec!["hello", "", "word"],
        ),
        (vec!["hello", "", "word"], 1, None, vec!["ello", "", "ord"]),
        (vec!["hello", "", "word"], 2, None, vec!["llo", "", "rd"]),
        (vec!["hello", "", "word"], 3, None, vec!["lo", "", "d"]),
        (vec!["hello", "", "word"], 10, None, vec!["", "", ""]),
        // increase start negatively
        (vec!["hello", "", "word"], -1, None, vec!["o", "", "d"]),
        (vec!["hello", "", "word"], -2, None, vec!["lo", "", "rd"]),
        (vec!["hello", "", "word"], -3, None, vec!["llo", "", "ord"]),
        (
            vec!["hello", "", "word"],
            -10,
            None,
            vec!["hello", "", "word"],
        ),
        // increase length
        (vec!["hello", "", "word"], 1, Some(1), vec!["e", "", "o"]),
        (vec!["hello", "", "word"], 1, Some(2), vec!["el", "", "or"]),
        (
            vec!["hello", "", "word"],
            1,
            Some(3),
            vec!["ell", "", "ord"],
        ),
        (
            vec!["hello", "", "word"],
            1,
            Some(4),
            vec!["ello", "", "ord"],
        ),
        (vec!["hello", "", "word"], -3, Some(1), vec!["l", "", "o"]),
        (vec!["hello", "", "word"], -3, Some(2), vec!["ll", "", "or"]),
        (
            vec!["hello", "", "word"],
            -3,
            Some(3),
            vec!["llo", "", "ord"],
        ),
        (
            vec!["hello", "", "word"],
            -3,
            Some(4),
            vec!["llo", "", "ord"],
        ),
    ];

    for (array, start, length, expected) in cases {
        let array = O::wrap_string(string_from_values::<O>(array));
        let result = substring(&array, start, length).unwrap();
        assert_eq!(array.len(), result.len());
        let expected = string_from_values::<O>(expected);
        assert_eq!(string_elements(&expected), string_elements(O::unwrap_string(&result)));
    }
}

#[test]
fn without_nulls_string() {
    without_nulls_generic_string::<i32>();
}

#[test]
fn without_nulls_large_string() {
    without_nulls_generic_string::<i64>();
}

/// Keys of one type out of indices.
fn keys_of(key_type: &str, keys: &[Option<u8>]) -> IntegerArray {
    let keys = keys.iter();
    match key_type {
        "Int8" => IntegerArray::Int8(keys.map(|k| k.map(|k| k as i8)).collect()),
        "Int16" => IntegerArray::Int16(keys.map(|k| k.map(|k| k as i16)).collect()),
        "Int32" => IntegerArray::Int32(keys.map(|k| k.map(|k| k as i32)).collect()),
        "Int64" => IntegerArray::Int64(keys.map(|k| k.map(|k| k as i64)).collect()),
        "UInt8" => IntegerArray::UInt8(keys.map(|k| k.map(|k| k as u8)).collect()),
        "UInt16" => IntegerArray::UInt16(keys.map(|k| k.map(|k| k as u16)).collect()),
        "UInt32" => IntegerArray::UInt32(keys.map(|k| k.map(|k| k as u32)).collect()),
        _ => IntegerArray::UInt64(keys.map(|k| k.map(|k| k as u64)).collect()),
    }
}

fn _dictionary(key_type: &str) {
    const TOTAL: i32 = 100;

    let v = ["aaa", "bbb", "ccc", "ddd", "eee"];
    let data: Vec<Option<&str>> = (0..TOTAL)
        .map(|n| {
            let i = n % 5;
            if i == 3 {
                None
            } else {
                Some(v[i as usize])
            }
        })
        .collect();

    // each value once, in the order in which it first occurs
    let mut unique: Vec<&str> = vec![];
    let mut keys: Vec<Option<u8>> = vec![];
    for item in &data {
        keys.push(item.map(|s| match unique.iter().position(|u| *u == s) {
            Some(k) => k as u8,
            None => {
                unique.push(s);
                (unique.len() - 1) as u8
            }
        }));
    }
    let values = Array::Utf8(string_from_values(unique));
    let dict_array = DictionaryArray::try_new(keys_of(key_type, &keys), values).unwrap();

    let expected: Vec<Option<&str>> = data.iter().map(|opt| opt.map(|s| &s[1..3])).collect();

    let res = substring(&Array::Dictionary(dict_array), 1, Some(2)).unwrap();
    let actual = match &res {
        Array::Dictionary(d) => d,
        _ => panic!("not a dictionary"),
    };
    assert_eq!(actual.keys().integer_type().name(), key_type);
    let values = i32::unwrap_string(actual.values());
    let actual: Vec<Option<&str>> = (0..actual.keys().len())
        .map(|i| actual.keys().get(i).map(|k| values.value(k as usize)))
        .collect();

    for i in 0..TOTAL as usize {
        assert_eq!(expected[i], actual[i]);
    }
}

#[test]
fn dictionary() {
    _dictionary("Int8");
    _dictionary("Int16");
    _dictionary("Int32");
    _dictionary("Int64");
    _dictionary("UInt8");
    _dictionary("UInt16");
    _dictionary("UInt32");
    _dictionary("UInt64");
}

#[test]
fn check_invalid_array_type() {
    let array = Array::Integer(IntegerArray::Int32(vec![Some(1), Some(2), Some(3)]));
    let err = substring(&array, 0, None).unwrap_err().to_string();
    assert!(err.contains("substring does not support type"));
}

// tests for the utf-8 validation checking
#[test]
fn check_start_index() {
    let array = Array::Utf8(string_from(vec![Some("E=mc²"), Some("ascii")]));
    let err = substring(&array, -1, None).unwrap_err().to_string();
    assert!(err.contains("invalid utf-8 boundary"));
}

#[test]
fn check_length() {
    let array = Array::Utf8(string_from(vec![Some("E=mc²"), Some("ascii")]));
    let err = substring(&array, 0, Some(5)).unwrap_err().to_string();
    assert!(err.contains("invalid utf-8 boundary"));
}
