use sciproj::formats::aseprite::props::serde::{
    decode_prop_map, read_from_prop_map, serialize_prop_map, Error, PropValue,
};

fn s(text: &str) -> PropValue {
    PropValue::Str(text.to_string())
}

fn entry(key: &str, value: PropValue) -> (PropValue, PropValue) {
    (s(key), value)
}

fn simple_struct(integer: i32, float: f64, boolean: bool, text: &str) -> PropValue {
    PropValue::PropMap(vec![
        entry("integer", PropValue::I32(integer)),
        entry("float", PropValue::F64(float.to_bits())),
        entry("boolean", PropValue::Bool(boolean)),
        entry("text", s(text)),
    ])
}

/// Trees compare by their debug form, which shows every variant and value.
fn same(a: &PropValue, b: &PropValue) -> bool {
    format!("{:?}", a) == format!("{:?}", b)
}

fn round_trip(input: &PropValue) -> PropValue {
    let data = serialize_prop_map(input).unwrap();
    read_from_prop_map(&data).unwrap()
}

#[test]
fn test_round_trip_simple_struct() {
    let input = simple_struct(42, std::f64::consts::PI, true, "Hello, world!");
    let output = round_trip(&input);
    assert!(same(&input, &output));
}

#[test]
fn test_round_trip_nested_struct() {
    let input = PropValue::PropMap(vec![
        entry("id", PropValue::U32(1001)),
        entry("meta", simple_struct(7, 0.0, false, "Nested")),
    ]);
    let output = round_trip(&input);
    assert!(same(&input, &output));
}

#[test]
fn test_round_trip_struct_with_vec() {
    let numbers = vec![1, 2, 3, 5, 8].into_iter().map(PropValue::I32).collect();
    let input = PropValue::PropMap(vec![
        entry("numbers", PropValue::List(numbers)),
        entry("names", PropValue::List(vec![s("Alice"), s("Bob")])),
    ]);
    let output = round_trip(&input);
    assert!(same(&input, &output));
}

#[test]
fn test_round_trip_hashmap() {
    let input = PropValue::PropMap(vec![
        entry("key1", PropValue::I32(123)),
        entry("key2", PropValue::I32(456)),
    ]);
    let output = round_trip(&input);
    assert!(same(&input, &output));
}

#[test]
fn test_round_trip_enum_tuple() {
    // A tuple variant is a one-entry map from the variant's name to a list.
    let input = PropValue::PropMap(vec![entry(
        "Tuple",
        PropValue::List(vec![PropValue::I32(42), s("Answer")]),
    )]);
    let output = round_trip(&input);
    assert!(same(&input, &output));
}

#[test]
fn test_round_trip_enum_struct() {
    // A struct variant is a one-entry map from the variant's name to a map.
    let input = PropValue::PropMap(vec![entry(
        "Struct",
        PropValue::PropMap(vec![entry("x", PropValue::I32(10)), entry("y", PropValue::I32(20))]),
    )]);
    let output = round_trip(&input);
    assert!(same(&input, &output));
}

#[test]
fn serialized_bytes_of_small_map() {
    let input = PropValue::PropMap(vec![entry("a", PropValue::U8(7))]);
    let data = serialize_prop_map(&input).unwrap();
    // count 1, key "a" (length 1), tag of U8 (2), the byte.
    assert_eq!(data, vec![1, 0, 0, 0, 1, 0, 0, 0, b'a', 3, 0, 7]);
}

#[test]
fn homogeneous_list_shares_its_tag() {
    let input = PropValue::PropMap(vec![entry(
        "l",
        PropValue::List(vec![PropValue::U16(1), PropValue::U16(2)]),
    )]);
    let data = serialize_prop_map(&input).unwrap();
    let expected: Vec<u8> = vec![
        1, 0, 0, 0, 1, 0, 0, 0, b'l', 0x11, 0, // count, key, tag of Vec
        2, 0, 0, 0, 5, 0, // two elements, all U16
        1, 0, 2, 0,
    ];
    assert_eq!(data, expected);
}

#[test]
fn mixed_list_tags_each_element() {
    let input = PropValue::PropMap(vec![entry(
        "l",
        PropValue::List(vec![PropValue::U8(1), PropValue::Bool(true)]),
    )]);
    let data = serialize_prop_map(&input).unwrap();
    let expected: Vec<u8> = vec![
        1, 0, 0, 0, 1, 0, 0, 0, b'l', 0x11, 0, // count, key, tag of Vec
        2, 0, 0, 0, 0, 0, // two elements, no shared tag
        3, 0, 1, 1, 0, 1,
    ];
    assert_eq!(data, expected);
    assert!(same(&round_trip(&input), &input));
}

#[test]
fn serializing_a_non_map_fails_with_its_tag() {
    let r = serialize_prop_map(&PropValue::U32(5));
    assert_eq!(r, Err(Error::InvalidPropertyType { tag: 7 }));
}

#[test]
fn map_with_non_string_key_fails() {
    let input = PropValue::PropMap(vec![(PropValue::U8(1), PropValue::U8(2))]);
    let r = serialize_prop_map(&input);
    assert_eq!(r, Err(Error::InvalidPropertyType { tag: 3 }));
}

#[test]
fn reading_short_input_reports_missing_bytes() {
    assert_eq!(
        read_from_prop_map(&[1, 0]).err(),
        Some(Error::NotEnoughBytes { expected: 4, actual: 2 })
    );
}

#[test]
fn reading_bad_utf8_fails() {
    let data = vec![1, 0, 0, 0, 1, 0, 0, 0, 0xff, 3, 0, 7];
    assert_eq!(read_from_prop_map(&data).err(), Some(Error::InvalidUTF8));
}

#[test]
fn reading_unknown_tag_fails() {
    let data = vec![1, 0, 0, 0, 1, 0, 0, 0, b'a', 0x77, 0, 7];
    assert_eq!(read_from_prop_map(&data).err(), Some(Error::InvalidPropertyType { tag: 0x77 }));
}

#[test]
fn reading_unsupported_type_names_it() {
    // A Rect value (tag 0x10).
    let data = vec![1, 0, 0, 0, 1, 0, 0, 0, b'a', 0x10, 0];
    assert_eq!(
        read_from_prop_map(&data).err(),
        Some(Error::UnsupportedType { name: "Rect32".to_string() })
    );
}

#[test]
fn cut_short_fixed_value_is_not_read() {
    // A U32 value with only two of its four bytes.
    let data = vec![1, 0, 0, 0, 1, 0, 0, 0, b'a', 7, 0, 1, 2];
    assert!(decode_prop_map(&data).is_none());
}
