//! How substrings behave on sliced arrays, at the limits of numbers, and under each law.

use arrow_substring::array::{Array, DictionaryArray, OtherArray};
use arrow_substring::binary::{BinaryArray, LargeBinaryArray};
use arrow_substring::cut::cut_bounds;
use arrow_substring::error::ArrowError;
use arrow_substring::fixed::FixedSizeBinaryArray;
use arrow_substring::integer::IntegerArray;
use arrow_substring::string::{LargeStringArray, StringArray};
use arrow_substring::substring::{
    binary_substring, fixed_size_binary_substring, substring, utf8_substring,
};

fn strings(items: &[&str]) -> StringArray {
    let mut offsets: Vec<i32> = vec![0];
    let mut values = String::new();
    for item in items {
        values.push_str(item);
        offsets.push(values.len() as i32);
    }
    StringArray::try_new(offsets, values, None, 0, items.len()).unwrap()
}

fn binaries(items: &[&[u8]]) -> BinaryArray {
    let mut offsets: Vec<i32> = vec![0];
    let mut values: Vec<u8> = vec![];
    for item in items {
        values.extend_from_slice(item);
        offsets.push(values.len() as i32);
    }
    BinaryArray::try_new(offsets, values, None, 0, items.len()).unwrap()
}

fn texts(array: &StringArray) -> Vec<Option<&str>> {
    (0..array.len()).map(|i| if array.is_null(i) { None } else { Some(array.value(i)) }).collect()
}

fn bytes(array: &BinaryArray) -> Vec<Option<&[u8]>> {
    (0..array.len()).map(|i| if array.is_null(i) { None } else { Some(array.value(i)) }).collect()
}

/// The elements of an array of bytes or text, dictionaries included.
fn elements(array: &Array) -> Vec<Option<Vec<u8>>> {
    match array {
        Array::Binary(a) => {
            bytes(a).into_iter().map(|e| e.map(|s| s.to_vec())).collect()
        }
        Array::Utf8(a) => {
            texts(a).into_iter().map(|e| e.map(|s| s.as_bytes().to_vec())).collect()
        }
        Array::FixedSizeBinary(a) => (0..a.len())
            .map(|i| if a.is_null(i) { None } else { Some(a.value(i).to_vec()) })
            .collect(),
        Array::Dictionary(d) => {
            let values = elements(d.values());
            (0..d.keys().len())
                .map(|i| d.keys().get(i).and_then(|k| values[k as usize].clone()))
                .collect()
        }
        _ => panic!("no byte strings"),
    }
}

fn compute_error(r: Result<Array, ArrowError>) -> String {
    match r {
        Err(ArrowError::ComputeError(m)) => m,
        other => panic!("no error: {:?}", other),
    }
}

#[test]
fn usage() {
    let array = StringArray::try_new(
        vec![0, 5, 5, 9],
        "arrowrust".to_owned(),
        Some(vec![0b101]),
        0,
        3,
    );
    let result = substring(&Array::Utf8(array.unwrap()), 1, Some(4)).unwrap();
    match result {
        Array::Utf8(a) => assert_eq!(texts(&a), vec![Some("rrow"), None, Some("ust")]),
        _ => panic!("not a string array"),
    }
}

#[test]
fn both_ends_of_a_cut() {
    assert_eq!(cut_bounds(5, 0, None), (0, 5));
    assert_eq!(cut_bounds(5, 2, None), (2, 5));
    assert_eq!(cut_bounds(5, 5, None), (5, 5));
    assert_eq!(cut_bounds(5, i64::MAX, Some(1)), (5, 5));
    assert_eq!(cut_bounds(5, -2, None), (3, 5));
    assert_eq!(cut_bounds(5, -2, Some(1)), (3, 4));
    assert_eq!(cut_bounds(5, -5, None), (0, 5));
    assert_eq!(cut_bounds(5, -6, Some(2)), (0, 2));
    assert_eq!(cut_bounds(5, i64::MIN, Some(u64::MAX)), (0, 5));
    assert_eq!(cut_bounds(5, 1, Some(u64::MAX)), (1, 5));
    assert_eq!(cut_bounds(0, -1, Some(0)), (0, 0));
}

#[test]
fn starts_and_lengths_beyond_the_offsets() {
    let array = binaries(&[b"hello", b"", b"word"]);
    let nothing: Vec<Option<&[u8]>> = vec![Some(b""), Some(b""), Some(b"")];
    let all: Vec<Option<&[u8]>> = vec![Some(b"hello"), Some(b""), Some(b"word")];
    for start in [1_i64 << 32, (1 << 32) + 1, i32::MAX as i64, i64::MAX] {
        assert_eq!(bytes(&binary_substring(&array, start, None)), nothing);
    }
    for start in [-(1_i64 << 32), -(1 << 32) - 1, i32::MIN as i64, i64::MIN] {
        assert_eq!(bytes(&binary_substring(&array, start, None)), all);
    }
    for length in [1_u64 << 31, 1 << 32, (1 << 32) + 1, 1 << 63, u64::MAX] {
        assert_eq!(bytes(&binary_substring(&array, 0, Some(length))), all);
    }
    let tails: Vec<Option<&[u8]>> = vec![Some(b"ello"), Some(b""), Some(b"ord")];
    assert_eq!(bytes(&binary_substring(&array, 1, Some(i32::MAX as u64))), tails);
    let text = strings(&["hello"]);
    assert_eq!(texts(&utf8_substring(&text, 1 << 32, None).unwrap()), vec![Some("")]);
    assert_eq!(texts(&utf8_substring(&text, 2, Some(u64::MAX)).unwrap()), vec![Some("llo")]);
    let fixed = FixedSizeBinaryArray::try_new(3, b"catdog".to_vec(), None, 0, 2).unwrap();
    let cut = fixed_size_binary_substring(&fixed, -(1 << 32), Some((1 << 32) + 2));
    assert_eq!(cut.value_length(), 3);
    assert_eq!(cut.value(1), b"dog");
    let large = LargeBinaryArray::try_new(vec![0, 5], b"hello".to_vec(), None, 0, 1).unwrap();
    assert_eq!(binary_substring(&large, i64::MIN, Some(u64::MAX)).value(0), b"hello");
    assert_eq!(binary_substring(&large, i64::MAX, Some(u64::MAX)).value(0), b"");
    assert_eq!(binary_substring(&large, 3, Some(u64::MAX)).value(0), b"lo");
}

#[test]
fn sliced_binary() {
    // set the first and third element to be valid
    let array = BinaryArray::try_new(
        vec![0, 5, 10, 15],
        b"hellotherearrow".to_vec(),
        Some(vec![0b101]),
        1,
        2,
    )
    .unwrap();
    // array is `[null, "arrow"]`
    let result = binary_substring(&array, 1, None);
    let expected: Vec<Option<&[u8]>> = vec![None, Some(b"rrow")];
    assert_eq!(bytes(&result), expected);
    // the slot of the null holds its substring all the same
    assert_eq!(result.value(0), b"here");
}

#[test]
fn sliced_string() {
    let array = LargeStringArray::try_new(
        vec![0, 5, 10, 15],
        "hellotherearrow".to_owned(),
        Some(vec![0b101]),
        1,
        2,
    )
    .unwrap();
    let result = utf8_substring(&array, -3, Some(2)).unwrap();
    assert_eq!(result.len(), 2);
    assert!(result.is_null(0));
    assert_eq!(result.value(0), "er");
    assert!(!result.is_null(1));
    assert_eq!(result.value(1), "ro");
}

#[test]
fn first_split_character_is_reported() {
    // the place is counted from the start of the value buffer
    let array = Array::Utf8(strings(&["ascii", "E=mc²", "²"]));
    assert_eq!(
        compute_error(substring(&array, -1, None)),
        "The offset 10 is at an invalid utf-8 boundary."
    );
    // the start is looked at before the end
    let array = Array::Utf8(strings(&["²²"]));
    assert_eq!(
        compute_error(substring(&array, 1, Some(2))),
        "The offset 1 is at an invalid utf-8 boundary."
    );
    assert_eq!(
        compute_error(substring(&array, 2, Some(1))),
        "The offset 3 is at an invalid utf-8 boundary."
    );
    // even where nothing would be left
    assert_eq!(
        compute_error(substring(&array, 1, Some(0))),
        "The offset 1 is at an invalid utf-8 boundary."
    );
    let ok = utf8_substring(&strings(&["²²"]), 2, Some(2)).unwrap();
    assert_eq!(texts(&ok), vec![Some("²")]);
}

#[test]
fn null_slots_are_checked_too() {
    let array =
        StringArray::try_new(vec![0, 2, 4], "²ab".to_owned(), Some(vec![0b10]), 0, 2).unwrap();
    assert_eq!(texts(&array), vec![None, Some("ab")]);
    let err = substring(&Array::Utf8(array), 1, None).unwrap_err();
    assert_eq!(err.to_string(), "Compute error: The offset 1 is at an invalid utf-8 boundary.");
}

#[test]
fn unsupported_types_are_named() {
    let array = Array::Integer(IntegerArray::UInt16(vec![None]));
    assert_eq!(
        compute_error(substring(&array, 3, Some(1))),
        "substring does not support type UInt16"
    );
    let array = Array::Other(OtherArray::new("Float64", 3));
    assert_eq!(array.len(), 3);
    assert_eq!(
        compute_error(substring(&array, 0, None)),
        "substring does not support type Float64"
    );
    let keys = IntegerArray::Int8(vec![Some(2)]);
    let dict = Array::Dictionary(DictionaryArray::try_new(keys, array).unwrap());
    assert_eq!(
        compute_error(substring(&dict, 0, None)),
        "substring does not support type Float64"
    );
}

#[test]
fn nested_dictionaries() {
    let fixed = FixedSizeBinaryArray::try_new(3, b"catdog".to_vec(), Some(vec![0b01]), 0, 2);
    let values = Array::FixedSizeBinary(fixed.unwrap());
    let keys = IntegerArray::UInt8(vec![Some(1), Some(0), None]);
    let inner = Array::Dictionary(DictionaryArray::try_new(keys, values).unwrap());
    let keys = IntegerArray::Int64(vec![Some(1), Some(1), None, Some(0), Some(2)]);
    let outer = Array::Dictionary(DictionaryArray::try_new(keys, inner).unwrap());
    let result = substring(&outer, -2, Some(1)).unwrap();
    assert_eq!(result.len(), 5);
    assert_eq!(
        elements(&result),
        vec![Some(b"a".to_vec()), Some(b"a".to_vec()), None, None, None]
    );
}

#[test]
fn a_dictionary_is_refused_for_its_values() {
    // the last value is split, though no key leads to it
    let values = Array::Utf8(strings(&["ab", "²"]));
    let keys = IntegerArray::Int32(vec![Some(0)]);
    let dict = Array::Dictionary(DictionaryArray::try_new(keys, values).unwrap());
    assert_eq!(
        compute_error(substring(&dict, 1, None)),
        "The offset 3 is at an invalid utf-8 boundary."
    );
}

#[test]
fn parts_make_up_the_whole() {
    let array = binaries(&[b"hello", b"", b"word"]);
    for at in 0..7_u64 {
        let front = binary_substring(&array, 0, Some(at));
        let back = binary_substring(&array, at as i64, None);
        for i in 0..array.len() {
            assert_eq!([front.value(i), back.value(i)].concat(), array.value(i));
        }
    }
    let word = binaries(&[b"word"]);
    let front = binary_substring(&word, 0, Some(3));
    let back = binary_substring(&word, -1, None);
    assert_eq!([front.value(0), back.value(0)].concat(), b"word");
}

#[test]
fn two_calls_are_one() {
    let array = Array::Utf8(strings(&["hello", "", "word"]));
    let once = substring(&array, 1, None).unwrap();
    let twice = substring(&once, 2, Some(1)).unwrap();
    assert_eq!(elements(&twice), elements(&substring(&array, 3, Some(1)).unwrap()));
    assert_eq!(
        elements(&twice),
        vec![Some(b"l".to_vec()), Some(b"".to_vec()), Some(b"d".to_vec())]
    );
}

#[test]
fn a_length_counts_from_the_start_of_the_substring() {
    let array = binaries(&[b"hello"]);
    for start in [-7_i64, -3, 0, 2, 9] {
        let tail = binary_substring(&array, start, None);
        for length in 0..6_u64 {
            let cut = binary_substring(&array, start, Some(length));
            assert_eq!(binary_substring(&tail, 0, Some(length)).value(0), cut.value(0));
            assert_eq!(cut.value(0).len() as u64, length.min(tail.value(0).len() as u64));
            let longer = binary_substring(&array, start, Some(length + 2));
            assert_eq!(binary_substring(&longer, 0, Some(length)).value(0), cut.value(0));
        }
    }
}

#[test]
fn a_negative_start_counts_from_the_end() {
    let array = binaries(&[b"hello"]);
    for back in 1..6_i64 {
        let from_end = binary_substring(&array, -back, Some(2));
        assert_eq!(from_end.value(0), binary_substring(&array, 5 - back, Some(2)).value(0));
    }
}

#[test]
fn whole_texts_and_plain_texts_are_never_refused() {
    let array = strings(&["E=mc²", "²", ""]);
    let whole = utf8_substring(&array, 0, None).unwrap();
    assert_eq!(texts(&whole), vec![Some("E=mc²"), Some("²"), Some("")]);
    let plain = strings(&["plain", "text"]);
    for start in -6..7_i64 {
        assert!(utf8_substring(&plain, start, None).is_ok());
        for length in 0..7_u64 {
            assert!(utf8_substring(&plain, start, Some(length)).is_ok());
        }
    }
}

#[test]
fn empty_arrays() {
    let array = BinaryArray::try_new(vec![0], vec![], None, 0, 0).unwrap();
    assert_eq!(binary_substring(&array, -3, Some(2)).len(), 0);
    let array = StringArray::try_new(vec![0], String::new(), Some(vec![]), 0, 0).unwrap();
    assert_eq!(utf8_substring(&array, 3, Some(2)).unwrap().len(), 0);
    let array = FixedSizeBinaryArray::try_new(4, vec![], None, 0, 0).unwrap();
    let cut = fixed_size_binary_substring(&array, 1, Some(2));
    assert_eq!((cut.len(), cut.value_length()), (0, 2));
}
