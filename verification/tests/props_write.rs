use sciproj::formats::aseprite::props::{Property, PropertyMap, PropertyWriteError};
use sciproj::formats::aseprite::{FixedI16, Point32, Rect32, Size32};

fn untyped(p: &Property) -> Vec<u8> {
    let mut out = Vec::new();
    p.write_untyped_to(&mut out).unwrap();
    out
}

#[test]
fn scalars_are_written_little_endian() {
    assert_eq!(untyped(&Property::Bool(true)), vec![1]);
    assert_eq!(untyped(&Property::I16(-2)), vec![0xfe, 0xff]);
    assert_eq!(untyped(&Property::U32(0x0102_0304)), vec![4, 3, 2, 1]);
    assert_eq!(untyped(&Property::FixedPoint(FixedI16::from_raw(0x0001_0000))), vec![0, 0, 1, 0]);
    assert_eq!(untyped(&Property::Point(Point32::new(1, -1))), vec![1, 0, 0, 0, 0xff, 0xff, 0xff, 0xff]);
    let rect = Rect32::new(Point32::new(1, 2), Size32::new(3, 4));
    assert_eq!(untyped(&Property::Rect(rect)), vec![1, 0, 0, 0, 2, 0, 0, 0, 3, 0, 0, 0, 4, 0, 0, 0]);
    assert_eq!(untyped(&Property::String("hi".to_string())), vec![2, 0, b'h', b'i']);
}

#[test]
fn typed_values_start_with_their_type() {
    let mut out = Vec::new();
    Property::U16(5).write_typed_to(&mut out).unwrap();
    assert_eq!(out, vec![5, 0, 5, 0]);
    assert_eq!(Property::Uuid([0; 16]).type_id(), 19);
}

#[test]
fn lists_share_a_type_or_tag_each_item() {
    let same = Property::Vec(vec![Property::U8(1), Property::U8(2)]);
    assert_eq!(untyped(&same), vec![2, 0, 0, 0, 3, 0, 1, 2]);
    let mixed = Property::Vec(vec![Property::U8(1), Property::Bool(true)]);
    assert_eq!(untyped(&mixed), vec![2, 0, 0, 0, 0, 0, 3, 0, 1, 1, 0, 1]);
    assert_eq!(untyped(&Property::Vec(vec![])), vec![0, 0, 0, 0, 0, 0]);
}

#[test]
fn maps_write_keys_and_typed_values() {
    let mut m = PropertyMap::new();
    m.set("k".to_string(), Property::I16(-1));
    let mut out = Vec::new();
    m.write_to(&mut out).unwrap();
    assert_eq!(out, vec![1, 0, 0, 0, 1, 0, b'k', 4, 0, 0xff, 0xff]);
    assert_eq!(untyped(&Property::PropMap(m)), out);
}

#[test]
fn a_long_string_cannot_be_written() {
    let mut out = Vec::new();
    let long = Property::String("x".repeat(70_000));
    assert_eq!(long.write_untyped_to(&mut out), Err(PropertyWriteError::StringTooLong));
}
