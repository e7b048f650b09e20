//! The binary encoding of property trees, as written and read for user data.
//!
//! A property tree is a [`PropValue`]: primitive numbers, strings, points,
//! lists and maps. A tagged value is its `u16` type tag followed by its
//! payload. Payloads are:
//!
//! - numbers: their little-endian bytes (`bool` as one byte, floats by bits);
//! - strings: a `u32` byte count followed by the UTF-8 bytes;
//! - points: two `i32`;
//! - lists: a `u32` element count and a `u16` element tag, which is the tag
//!   shared by all elements, or 0 when the list is empty or mixed; then each
//!   element's payload, preceded by its own tag when the element tag is 0;
//! - maps: a `u32` entry count, then for each entry the key's string payload
//!   (untagged) and the tagged value.
//!
//! A property map as a whole is the payload of a map.
use vstd::prelude::*;
use vstd::utf8::*;

use crate::bytes_le::{
    copy_range, get_u16_le, get_u32_le, get_u64_le, lemma_signed_casts, lemma_u16_at,
    lemma_u32_at, lemma_u64_at, put_slice, put_u16_le, put_u32_le, put_u64_le, put_u8, u16_at, u16_le, u32_at, u32_le, u64_at,
    u64_le,
};
use crate::strings::string_from_utf8;
use crate::formats::aseprite::props::{
    PropertyTag, lemma_tag_code_roundtrip, tag_code, tag_of_code,
};

verus! {

broadcast use vstd::seq::group_seq_axioms;

/// Errors in writing or reading a property tree.
#[derive(Debug, Clone, PartialEq)]
pub enum Error {
    /// A value has the wrong type tag here, or a number names no tag.
    InvalidPropertyType { tag: u16 },
    /// The input ended before a length-checked read.
    NotEnoughBytes { expected: usize, actual: usize },
    /// A string is not UTF-8.
    InvalidUTF8,
    /// The input holds a value of a type that is not read.
    UnsupportedType { name: String },
    /// A list has more elements than a `u32` counts.
    TooManyElements,
    /// Any other error, with its message.
    Other(String),
}

/// The mathematical model of an [`Error`]: strings by their characters.
pub enum ErrorModel {
    InvalidPropertyType(u16),
    NotEnoughBytes(usize, usize),
    InvalidUTF8,
    UnsupportedType(Seq<char>),
    TooManyElements,
    Other(Seq<char>),
}

impl View for Error {
    type V = ErrorModel;

    open spec fn view(&self) -> ErrorModel {
        match self {
            Error::InvalidPropertyType { tag } => ErrorModel::InvalidPropertyType(*tag),
            Error::NotEnoughBytes { expected, actual } => ErrorModel::NotEnoughBytes(
                *expected,
                *actual,
            ),
            Error::InvalidUTF8 => ErrorModel::InvalidUTF8,
            Error::UnsupportedType { name } => ErrorModel::UnsupportedType(name@),
            Error::TooManyElements => ErrorModel::TooManyElements,
            Error::Other(msg) => ErrorModel::Other(msg@),
        }
    }
}

/// A property tree. Floating-point values are held by their bits.
#[derive(Debug)]
pub enum PropValue {
    Bool(bool),
    I8(i8),
    U8(u8),
    I16(i16),
    U16(u16),
    I32(i32),
    U32(u32),
    I64(i64),
    U64(u64),
    F32(u32),
    F64(u64),
    Str(String),
    Point(i32, i32),
    List(Vec<PropValue>),
    PropMap(Vec<(PropValue, PropValue)>),
}

/// The mathematical model of a [`PropValue`].
pub enum PropModel {
    Bool(bool),
    I8(i8),
    U8(u8),
    I16(i16),
    U16(u16),
    I32(i32),
    U32(u32),
    I64(i64),
    U64(u64),
    F32(u32),
    F64(u64),
    Str(Seq<char>),
    Point(i32, i32),
    List(Seq<PropModel>),
    PropMap(Seq<(PropModel, PropModel)>),
}

impl PropValue {
    /// The model of this tree.
    pub open spec fn model(self) -> PropModel
        decreases self,
    {
        match self {
            PropValue::Bool(b) => PropModel::Bool(b),
            PropValue::I8(x) => PropModel::I8(x),
            PropValue::U8(x) => PropModel::U8(x),
            PropValue::I16(x) => PropModel::I16(x),
            PropValue::U16(x) => PropModel::U16(x),
            PropValue::I32(x) => PropModel::I32(x),
            PropValue::U32(x) => PropModel::U32(x),
            PropValue::I64(x) => PropModel::I64(x),
            PropValue::U64(x) => PropModel::U64(x),
            PropValue::F32(x) => PropModel::F32(x),
            PropValue::F64(x) => PropModel::F64(x),
            PropValue::Str(s) => PropModel::Str(s@),
            PropValue::Point(x, y) => PropModel::Point(x, y),
            PropValue::List(items) => PropModel::List(
                Seq::new(
                    items@.len(),
                    |i: int|
                        if 0 <= i < items@.len() {
                            items@[i].model()
                        } else {
                            PropModel::Bool(false)
                        },
                ),
            ),
            PropValue::PropMap(entries) => PropModel::PropMap(
                Seq::new(
                    entries@.len(),
                    |i: int|
                        if 0 <= i < entries@.len() {
                            (entries@[i].0.model(), entries@[i].1.model())
                        } else {
                            (PropModel::Bool(false), PropModel::Bool(false))
                        },
                ),
            ),
        }
    }
}

/// The models of a sequence of trees.
pub open spec fn models(s: Seq<PropValue>) -> Seq<PropModel> {
    Seq::new(s.len(), |i: int| s[i].model())
}

/// The models of a sequence of map entries.
pub open spec fn entry_models(s: Seq<(PropValue, PropValue)>) -> Seq<(PropModel, PropModel)> {
    Seq::new(s.len(), |i: int| (s[i].0.model(), s[i].1.model()))
}

/// The type tag of a tree.
pub open spec fn model_tag(v: PropModel) -> PropertyTag {
    match v {
        PropModel::Bool(_) => PropertyTag::Bool,
        PropModel::I8(_) => PropertyTag::I8,
        PropModel::U8(_) => PropertyTag::U8,
        PropModel::I16(_) => PropertyTag::I16,
        PropModel::U16(_) => PropertyTag::U16,
        PropModel::I32(_) => PropertyTag::I32,
        PropModel::U32(_) => PropertyTag::U32,
        PropModel::I64(_) => PropertyTag::I64,
        PropModel::U64(_) => PropertyTag::U64,
        PropModel::F32(_) => PropertyTag::F32,
        PropModel::F64(_) => PropertyTag::F64,
        PropModel::Str(_) => PropertyTag::String,
        PropModel::Point(_, _) => PropertyTag::Point,
        PropModel::List(_) => PropertyTag::Vec,
        PropModel::PropMap(_) => PropertyTag::PropMap,
    }
}

/// Every map in the tree has at most `u32::MAX` entries: the entry count is
/// kept in a `u32` as the entries are written.
pub open spec fn maps_fit(v: PropModel) -> bool
    decreases v,
{
    match v {
        PropModel::List(items) => forall|i: int|
            0 <= i < items.len() ==> maps_fit(#[trigger] items[i]),
        PropModel::PropMap(es) => es.len() <= u32::MAX && forall|i: int|
            0 <= i < es.len() ==> maps_fit(#[trigger] es[i].0) && maps_fit(es[i].1),
        _ => true,
    }
}

/// The tree can be written: its map keys are strings, and every count and
/// string length fits in a `u32`.
pub open spec fn writable(v: PropModel) -> bool
    decreases v,
{
    match v {
        PropModel::Str(s) => encode_utf8(s).len() <= u32::MAX,
        PropModel::List(items) => items.len() <= u32::MAX && forall|i: int|
            0 <= i < items.len() ==> writable(#[trigger] items[i]),
        PropModel::PropMap(es) => es.len() <= u32::MAX && forall|i: int|
            0 <= i < es.len() ==> (#[trigger] es[i].0 is Str) && writable(es[i].0) && writable(
                es[i].1,
            ),
        _ => true,
    }
}

/// The message of a failed integer conversion.
pub open spec fn int_conv_msg() -> Seq<char> {
    "out of range integral type conversion attempted"@
}

/// The payload of a string: its UTF-8 byte count, then the bytes.
pub open spec fn enc_str(s: Seq<char>) -> Result<Seq<u8>, ErrorModel> {
    let b = encode_utf8(s);
    if b.len() > u32::MAX {
        Err(ErrorModel::Other(int_conv_msg()))
    } else {
        Ok(u32_le(b.len() as u32) + b)
    }
}

/// The tag shared by all elements of a non-empty list, if they share one.
pub open spec fn homogeneous_tag(items: Seq<PropModel>) -> Option<PropertyTag> {
    if items.len() > 0 && forall|i: int|
        0 <= i < items.len() ==> model_tag(#[trigger] items[i]) == model_tag(items[0]) {
        Some(model_tag(items[0]))
    } else {
        None
    }
}

/// The number written for a list's element tag.
pub open spec fn elem_tag_code(g: Option<PropertyTag>) -> u16 {
    match g {
        Some(t) => tag_code(t),
        None => 0,
    }
}

/// The payload of a tree.
pub open spec fn enc_payload(v: PropModel) -> Result<Seq<u8>, ErrorModel>
    decreases v,
{
    match v {
        PropModel::Bool(b) => Ok(seq![if b { 1u8 } else { 0u8 }]),
        PropModel::I8(x) => Ok(seq![x as u8]),
        PropModel::U8(x) => Ok(seq![x]),
        PropModel::I16(x) => Ok(u16_le(x as u16)),
        PropModel::U16(x) => Ok(u16_le(x)),
        PropModel::I32(x) => Ok(u32_le(x as u32)),
        PropModel::U32(x) => Ok(u32_le(x)),
        PropModel::I64(x) => Ok(u64_le(x as u64)),
        PropModel::U64(x) => Ok(u64_le(x)),
        PropModel::F32(x) => Ok(u32_le(x)),
        PropModel::F64(x) => Ok(u64_le(x)),
        PropModel::Str(s) => enc_str(s),
        PropModel::Point(x, y) => Ok(u32_le(x as u32) + u32_le(y as u32)),
        PropModel::List(items) => match enc_items(items) {
            Err(e) => Err(e),
            Ok(parts) => if items.len() > u32::MAX {
                Err(ErrorModel::TooManyElements)
            } else {
                let g = homogeneous_tag(items);
                Ok(
                    u32_le(items.len() as u32) + u16_le(elem_tag_code(g)) + list_body(
                        items,
                        parts,
                        g,
                    ),
                )
            },
        },
        PropModel::PropMap(es) => match enc_entries(es) {
            Err(e) => Err(e),
            Ok(b) => Ok(u32_le(es.len() as u32) + b),
        },
    }
}

/// The payloads of the elements, in order; the first error if any fails.
pub open spec fn enc_items(items: Seq<PropModel>) -> Result<Seq<Seq<u8>>, ErrorModel>
    decreases items,
{
    if items.len() == 0 {
        Ok(seq![])
    } else {
        match enc_items(items.drop_last()) {
            Err(e) => Err(e),
            Ok(parts) => match enc_payload(items[items.len() - 1]) {
                Err(e) => Err(e),
                Ok(p) => Ok(parts.push(p)),
            },
        }
    }
}

/// The elements of a list after its header: each payload, preceded by the
/// element's own tag when there is no shared tag.
pub open spec fn list_body(items: Seq<PropModel>, parts: Seq<Seq<u8>>, g: Option<PropertyTag>) -> Seq<
    u8,
>
    decreases parts.len(),
{
    if parts.len() == 0 || items.len() == 0 {
        seq![]
    } else {
        list_body(items.drop_last(), parts.drop_last(), g) + (if g is None {
            u16_le(tag_code(model_tag(items.last())))
        } else {
            seq![]
        }) + parts.last()
    }
}

/// The entries of a map after its count; the first error if any fails.
pub open spec fn enc_entries(es: Seq<(PropModel, PropModel)>) -> Result<Seq<u8>, ErrorModel>
    decreases es,
{
    if es.len() == 0 {
        Ok(seq![])
    } else {
        match enc_entries(es.drop_last()) {
            Err(e) => Err(e),
            Ok(b) => {
                let k = es[es.len() - 1].0;
                let val = es[es.len() - 1].1;
                match k {
                    PropModel::Str(s) => match enc_str(s) {
                        Err(e) => Err(e),
                        Ok(kb) => match enc_payload(val) {
                            Err(e) => Err(e),
                            Ok(vb) => Ok(b + kb + u16_le(tag_code(model_tag(val))) + vb),
                        },
                    },
                    _ => Err(ErrorModel::InvalidPropertyType(tag_code(model_tag(k)))),
                }
            },
        }
    }
}

/// The bytes of a property map: the tree must be a map, and is written as
/// a map's payload.
pub open spec fn spec_serialize_prop_map(v: PropModel) -> Result<Seq<u8>, ErrorModel> {
    match v {
        PropModel::PropMap(_) => enc_payload(v),
        _ => Err(ErrorModel::InvalidPropertyType(tag_code(model_tag(v)))),
    }
}

/// How reading fails: with an error, or on a fixed-size value that is cut
/// short, which the reader does not check (it stops the program there).
pub enum Fault {
    Fail(ErrorModel),
    Truncated,
}

/// The error of a length-checked read of `expected` bytes from `actual` ones.
pub open spec fn not_enough(expected: int, actual: int) -> Fault {
    Fault::Fail(ErrorModel::NotEnoughBytes(expected as usize, actual as usize))
}

/// Reads a string payload from the front of `d`; gives the rest.
pub open spec fn dec_str(d: Seq<u8>) -> Result<(Seq<char>, Seq<u8>), Fault> {
    if d.len() < 4 {
        Err(not_enough(4, d.len() as int))
    } else {
        let n = u32_at(d, 0);
        let r = d.skip(4);
        if r.len() < n {
            Err(not_enough(n as int, r.len() as int))
        } else {
            let b = r.take(n as int);
            if valid_utf8(b) {
                Ok((decode_utf8(b), r.skip(n as int)))
            } else {
                Err(Fault::Fail(ErrorModel::InvalidUTF8))
            }
        }
    }
}

/// Reads a type tag from the front of `d`; gives the rest.
pub open spec fn dec_tag(d: Seq<u8>) -> Result<(PropertyTag, Seq<u8>), Fault> {
    if d.len() < 2 {
        Err(not_enough(2, d.len() as int))
    } else {
        let raw = u16_at(d, 0);
        match tag_of_code(raw) {
            Some(t) => Ok((t, d.skip(2))),
            None => Err(Fault::Fail(ErrorModel::InvalidPropertyType(raw))),
        }
    }
}

/// The byte size of a fixed-size payload of tag `t`.
pub open spec fn fixed_size(t: PropertyTag) -> int {
    match t {
        PropertyTag::Bool | PropertyTag::I8 | PropertyTag::U8 => 1,
        PropertyTag::I16 | PropertyTag::U16 => 2,
        PropertyTag::I32 | PropertyTag::U32 | PropertyTag::F32 => 4,
        _ => 8,
    }
}

/// Whether payloads of tag `t` have a fixed size and are read without a
/// length check.
pub open spec fn is_fixed(t: PropertyTag) -> bool {
    match t {
        PropertyTag::Bool | PropertyTag::I8 | PropertyTag::U8 | PropertyTag::I16
        | PropertyTag::U16 | PropertyTag::I32 | PropertyTag::U32 | PropertyTag::I64
        | PropertyTag::U64 | PropertyTag::F32 | PropertyTag::F64 | PropertyTag::Point => true,
        _ => false,
    }
}

/// The value of a fixed-size payload of tag `t` at the front of `d`.
pub open spec fn fixed_value(t: PropertyTag, d: Seq<u8>) -> PropModel {
    match t {
        PropertyTag::Bool => PropModel::Bool(d[0] != 0),
        PropertyTag::I8 => PropModel::I8(d[0] as i8),
        PropertyTag::U8 => PropModel::U8(d[0]),
        PropertyTag::I16 => PropModel::I16(u16_at(d, 0) as i16),
        PropertyTag::U16 => PropModel::U16(u16_at(d, 0)),
        PropertyTag::I32 => PropModel::I32(u32_at(d, 0) as i32),
        PropertyTag::U32 => PropModel::U32(u32_at(d, 0)),
        PropertyTag::I64 => PropModel::I64(u64_at(d, 0) as i64),
        PropertyTag::U64 => PropModel::U64(u64_at(d, 0)),
        PropertyTag::F32 => PropModel::F32(u32_at(d, 0)),
        PropertyTag::F64 => PropModel::F64(u64_at(d, 0)),
        _ => PropModel::Point(u32_at(d, 0) as i32, u32_at(d, 4) as i32),
    }
}

/// The name given for a tag whose values are not read.
pub open spec fn unsupported_name(t: PropertyTag) -> Seq<char> {
    match t {
        PropertyTag::FixedPoint => "FixedPoint"@,
        PropertyTag::Size => "Size32"@,
        PropertyTag::Rect => "Rect32"@,
        _ => "UUID"@,
    }
}

/// Reads a payload of tag `t` from the front of `d`; gives the tree and the rest.
pub open spec fn dec_payload(t: PropertyTag, d: Seq<u8>) -> Result<(PropModel, Seq<u8>), Fault>
    decreases d.len(), 0int, 0int,
{
    if is_fixed(t) {
        if d.len() < fixed_size(t) {
            Err(Fault::Truncated)
        } else {
            Ok((fixed_value(t, d), d.skip(fixed_size(t))))
        }
    } else {
        match t {
            PropertyTag::String => match dec_str(d) {
                Err(f) => Err(f),
                Ok((s, r)) => Ok((PropModel::Str(s), r)),
            },
            PropertyTag::Vec => if d.len() < 4 {
                Err(not_enough(4, d.len() as int))
            } else if d.len() < 6 {
                Err(not_enough(2, d.len() - 4))
            } else {
                let count = u32_at(d, 0);
                let raw = u16_at(d, 4);
                if raw == 0 {
                    match dec_list(None, count as nat, d.skip(6)) {
                        Err(f) => Err(f),
                        Ok((items, r)) => Ok((PropModel::List(items), r)),
                    }
                } else {
                    match tag_of_code(raw) {
                        None => Err(Fault::Fail(ErrorModel::InvalidPropertyType(raw))),
                        Some(g) => match dec_list(Some(g), count as nat, d.skip(6)) {
                            Err(f) => Err(f),
                            Ok((items, r)) => Ok((PropModel::List(items), r)),
                        },
                    }
                }
            },
            PropertyTag::PropMap => if d.len() < 4 {
                Err(not_enough(4, d.len() as int))
            } else {
                match dec_entries(u32_at(d, 0) as nat, d.skip(4)) {
                    Err(f) => Err(f),
                    Ok((es, r)) => Ok((PropModel::PropMap(es), r)),
                }
            },
            _ => Err(Fault::Fail(ErrorModel::UnsupportedType(unsupported_name(t)))),
        }
    }
}

/// Reads `count` list elements from the front of `d`, each with tag `g` or,
/// when `g` is `None`, with its own tag first.
pub open spec fn dec_list(g: Option<PropertyTag>, count: nat, d: Seq<u8>) -> Result<
    (Seq<PropModel>, Seq<u8>),
    Fault,
>
    decreases d.len(), 1int, count,
{
    if count == 0 {
        Ok((seq![], d))
    } else {
        let first: Result<(PropModel, Seq<u8>), Fault> = match g {
            Some(t) => dec_payload(t, d),
            None => if d.len() < 2 {
                Err(not_enough(2, d.len() as int))
            } else {
                match tag_of_code(u16_at(d, 0)) {
                    None => Err(Fault::Fail(ErrorModel::InvalidPropertyType(u16_at(d, 0)))),
                    Some(t) => dec_payload(t, d.skip(2)),
                }
            },
        };
        match first {
            Err(f) => Err(f),
            Ok((v, r)) => if r.len() < d.len() {
                match dec_list(g, (count - 1) as nat, r) {
                    Err(f) => Err(f),
                    Ok((vs, r2)) => Ok((seq![v] + vs, r2)),
                }
            } else {
                Err(Fault::Truncated)
            },
        }
    }
}

/// Reads `count` map entries from the front of `d`: each an untagged string
/// key and a tagged value.
pub open spec fn dec_entries(count: nat, d: Seq<u8>) -> Result<
    (Seq<(PropModel, PropModel)>, Seq<u8>),
    Fault,
>
    decreases d.len(), 1int, count,
{
    if count == 0 {
        Ok((seq![], d))
    } else {
        match dec_str(d) {
            Err(f) => Err(f),
            Ok((k, r1)) => if r1.len() < 2 {
                Err(not_enough(2, r1.len() as int))
            } else {
                match tag_of_code(u16_at(r1, 0)) {
                    None => Err(Fault::Fail(ErrorModel::InvalidPropertyType(u16_at(r1, 0)))),
                    Some(t) => if r1.len() <= d.len() {
                        match dec_payload(t, r1.skip(2)) {
                            Err(f) => Err(f),
                            Ok((v, r2)) => if r2.len() < d.len() {
                                match dec_entries((count - 1) as nat, r2) {
                                    Err(f) => Err(f),
                                    Ok((es, r3)) => Ok((seq![(PropModel::Str(k), v)] + es, r3)),
                                }
                            } else {
                                Err(Fault::Truncated)
                            },
                        }
                    } else {
                        Err(Fault::Truncated)
                    },
                }
            },
        }
    }
}

/// What reading a property map from `d` gives: `None` where a fixed-size
/// value is cut short, else the map or the error.
pub open spec fn spec_read_prop_map(d: Seq<u8>) -> Option<Result<PropModel, ErrorModel>> {
    match dec_payload(PropertyTag::PropMap, d) {
        Ok((v, _)) => Some(Ok(v)),
        Err(Fault::Fail(e)) => Some(Err(e)),
        Err(Fault::Truncated) => None,
    }
}


/// Whether `r` reports what `spec` says of a write that appended to `old`
/// and left `new`: on success the appended bytes, on failure the error.
pub open spec fn appended(
    r: Result<(), Error>,
    old: Seq<u8>,
    new: Seq<u8>,
    spec: Result<Seq<u8>, ErrorModel>,
) -> bool {
    match spec {
        Ok(b) => r is Ok && new == old + b,
        Err(e) => r matches Err(x) && x@ == e,
    }
}

/// An element of a list whose maps fit has maps that fit.
proof fn lemma_maps_fit_elem(ms: Seq<PropModel>, i: int)
    requires
        maps_fit(PropModel::List(ms)),
        0 <= i < ms.len(),
    ensures
        maps_fit(ms[i]),
{
    let m = PropModel::List(ms);
    assert(decreases_to!(m => m->List_0));
    assert(decreases_to!(m->List_0 => m->List_0[i]));
}

/// The key and value of an entry of a map whose maps fit have maps that fit.
proof fn lemma_maps_fit_entry(es: Seq<(PropModel, PropModel)>, i: int)
    requires
        maps_fit(PropModel::PropMap(es)),
        0 <= i < es.len(),
    ensures
        maps_fit(es[i].0),
        maps_fit(es[i].1),
        es.len() <= u32::MAX,
{
    let m = PropModel::PropMap(es);
    assert(decreases_to!(m => m->PropMap_0));
    assert(decreases_to!(m->PropMap_0 => m->PropMap_0[i]));
    assert(decreases_to!(m->PropMap_0[i] => m->PropMap_0[i].0));
    assert(decreases_to!(m->PropMap_0[i] => m->PropMap_0[i].1));
}

/// The payload of a list, by the payloads of its elements.
proof fn lemma_enc_payload_list(ms: Seq<PropModel>)
    ensures
        enc_payload(PropModel::List(ms)) == match enc_items(ms) {
            Err(e) => Err(e),
            Ok(parts) => if ms.len() > u32::MAX {
                Err(ErrorModel::TooManyElements)
            } else {
                let g = homogeneous_tag(ms);
                Ok(u32_le(ms.len() as u32) + u16_le(elem_tag_code(g)) + list_body(ms, parts, g))
            },
        },
{
    let m = PropModel::List(ms);
    assert(decreases_to!(m => m->List_0));
}

/// The payload of a map, by its entries.
proof fn lemma_enc_payload_map(es: Seq<(PropModel, PropModel)>)
    ensures
        enc_payload(PropModel::PropMap(es)) == match enc_entries(es) {
            Err(e) => Err(e),
            Ok(b) => Ok(u32_le(es.len() as u32) + b),
        },
{
    let m = PropModel::PropMap(es);
    assert(decreases_to!(m => m->PropMap_0));
}

/// The message of a failed integer conversion.
fn int_conv_message() -> (r: String)
    ensures
        r@ == int_conv_msg(),
{
    "out of range integral type conversion attempted".to_owned()
}

/// The type tag of a tree.
pub fn value_tag(v: &PropValue) -> (t: PropertyTag)
    ensures
        t == model_tag(v.model()),
{
    match v {
        PropValue::Bool(_) => PropertyTag::Bool,
        PropValue::I8(_) => PropertyTag::I8,
        PropValue::U8(_) => PropertyTag::U8,
        PropValue::I16(_) => PropertyTag::I16,
        PropValue::U16(_) => PropertyTag::U16,
        PropValue::I32(_) => PropertyTag::I32,
        PropValue::U32(_) => PropertyTag::U32,
        PropValue::I64(_) => PropertyTag::I64,
        PropValue::U64(_) => PropertyTag::U64,
        PropValue::F32(_) => PropertyTag::F32,
        PropValue::F64(_) => PropertyTag::F64,
        PropValue::Str(_) => PropertyTag::String,
        PropValue::Point(_, _) => PropertyTag::Point,
        PropValue::List(_) => PropertyTag::Vec,
        PropValue::PropMap(_) => PropertyTag::PropMap,
    }
}

/// Appends the payload of a string.
fn write_str(s: &String, out: &mut Vec<u8>) -> (r: Result<(), Error>)
    ensures
        appended(r, old(out)@, final(out)@, enc_str(s@)),
{
    let b = s.as_str().as_bytes();
    if b.len() > 0xffff_ffffusize {
        return Err(Error::Other(int_conv_message()));
    }
    assert(b@ == encode_utf8(s@));
    put_u32_le(out, b.len() as u32);
    put_slice(out, b);
    assert(out@ =~= old(out)@ + (u32_le(b@.len() as u32) + b@));
    Ok(())
}

/// A failure in the elements of a prefix is the failure of the whole list.
proof fn lemma_enc_items_err(s: Seq<PropModel>, i: int)
    requires
        0 <= i <= s.len(),
        enc_items(s.take(i)) is Err,
    ensures
        enc_items(s) == enc_items(s.take(i)),
    decreases s.len(),
{
    if i == s.len() {
        assert(s.take(i) =~= s);
    } else {
        assert(s.drop_last().take(i) =~= s.take(i));
        lemma_enc_items_err(s.drop_last(), i);
    }
}

/// A failure in the entries of a prefix is the failure of the whole map.
proof fn lemma_enc_entries_err(s: Seq<(PropModel, PropModel)>, i: int)
    requires
        0 <= i <= s.len(),
        enc_entries(s.take(i)) is Err,
    ensures
        enc_entries(s) == enc_entries(s.take(i)),
    decreases s.len(),
{
    if i == s.len() {
        assert(s.take(i) =~= s);
    } else {
        assert(s.drop_last().take(i) =~= s.take(i));
        lemma_enc_entries_err(s.drop_last(), i);
    }
}

/// The model of a list is the list of the models of its elements.
proof fn lemma_list_model(items: &Vec<PropValue>)
    ensures
        PropValue::List(*items).model() == PropModel::List(models(items@)),
{
    let v = PropValue::List(*items);
    let m = v.model()->List_0;
    assert(m.len() == items@.len());
    assert forall|i: int| 0 <= i < m.len() implies m[i] == items@[i].model() by {}
    assert(m =~= models(items@));
}

/// The model of a map is the sequence of the models of its entries.
proof fn lemma_map_model(es: &Vec<(PropValue, PropValue)>)
    ensures
        PropValue::PropMap(*es).model() == PropModel::PropMap(entry_models(es@)),
{
    let v = PropValue::PropMap(*es);
    let m = v.model()->PropMap_0;
    assert(m.len() == es@.len());
    assert forall|i: int| 0 <= i < m.len() implies m[i] == (es@[i].0.model(), es@[i].1.model()) by {}
    assert(m =~= entry_models(es@));
}

/// The payload bytes of the parts of a list, without their tags.
pub open spec fn part_bytes(parts: Seq<(PropertyTag, Vec<u8>)>) -> Seq<Seq<u8>> {
    Seq::new(parts.len(), |j: int| parts[j].1@)
}

/// Appends the payload of a list.
fn write_list(items: &Vec<PropValue>, out: &mut Vec<u8>) -> (r: Result<(), Error>)
    requires
        maps_fit(PropValue::List(*items).model()),
    ensures
        appended(r, old(out)@, final(out)@, enc_payload(PropValue::List(*items).model())),
    decreases items, 0int,
{
    proof {
        lemma_list_model(items);
        lemma_enc_payload_list(models(items@));
    }
    let ghost ms = models(items@);
    let mut parts: Vec<(PropertyTag, Vec<u8>)> = Vec::new();
    let mut i: usize = 0;
    assert(ms.take(0) =~= Seq::<PropModel>::empty());
    assert(part_bytes(parts@) =~= Seq::<Seq<u8>>::empty());
    while i < items.len()
        invariant
            i <= items@.len(),
            ms == models(items@),
            maps_fit(PropModel::List(ms)),
            PropValue::List(*items).model() == PropModel::List(ms),
            enc_items(ms) is Err ==> enc_payload(PropModel::List(ms)) == Err::<Seq<u8>, ErrorModel>(
                enc_items(ms)->Err_0,
            ),
            parts@.len() == i,
            enc_items(ms.take(i as int)) == Ok::<Seq<Seq<u8>>, ErrorModel>(part_bytes(parts@)),
            forall|j: int| 0 <= j < i ==> (#[trigger] parts@[j]).0 == model_tag(ms[j]),
        decreases items@.len() - i,
    {
        let mut buf: Vec<u8> = Vec::new();
        proof {
            lemma_maps_fit_elem(ms, i as int);
        }
        proof {
            assert(decreases_to!(items => items@[i as int]));
        }
        let res = write_value_payload(&items[i], &mut buf);
        assert(ms.take(i + 1).drop_last() =~= ms.take(i as int));
        assert(ms.take(i + 1)[i as int] == ms[i as int]);
        assert(ms[i as int] == items@[i as int].model());
        match res {
            Err(e) => {
                proof {
                    assert(enc_items(ms.take(i + 1)) == Err::<Seq<Seq<u8>>, ErrorModel>(e@));
                    lemma_enc_items_err(ms, i + 1);
                    assert(enc_items(ms) == Err::<Seq<Seq<u8>>, ErrorModel>(e@));
                }
                return Err(e);
            },
            Ok(()) => {},
        }
        let t = value_tag(&items[i]);
        let ghost prev_parts = parts@;
        let ghost bufv = buf@;
        parts.push((t, buf));
        assert(part_bytes(parts@) =~= part_bytes(prev_parts).push(bufv));
        i = i + 1;
    }
    assert(ms.take(i as int) =~= ms);
    if items.len() > 0xffff_ffffusize {
        return Err(Error::TooManyElements);
    }
    // The shared tag of the elements, if there is one.

    let mut same = parts.len() > 0;
    let mut k: usize = 1;
    while k < parts.len()
        invariant
            parts@.len() == ms.len(),
            forall|j: int| 0 <= j < parts@.len() ==> (#[trigger] parts@[j]).0 == model_tag(ms[j]),
            enc_items(ms) == Ok::<Seq<Seq<u8>>, ErrorModel>(part_bytes(parts@)),
            ms.len() <= u32::MAX,
            same ==> parts@.len() > 0 && forall|j: int| 0 <= j < k && j < parts@.len() ==> model_tag(#[trigger] ms[j]) == model_tag(ms[0]),
            !same ==> homogeneous_tag(ms) is None,
            1 <= k,
        decreases parts@.len() - k,
    {
        if parts[k].0 != parts[0].0 {
            same = false;
        }
        k = k + 1;
    }
    let g: Option<PropertyTag> = if same {
        Some(parts[0].0)
    } else {
        None
    };
    assert(g == homogeneous_tag(ms));
    put_u32_le(out, items.len() as u32);
    let code: u16 = match g {
        Some(t) => t.to_u16(),
        None => 0,
    };
    put_u16_le(out, code);
    let ghost header = old(out)@ + u32_le(items.len() as u32) + u16_le(elem_tag_code(g));
    assert(out@ == header);
    let ghost pb = part_bytes(parts@);
    let mut k: usize = 0;
    while k < parts.len()
        invariant
            k <= parts@.len(),
            parts@.len() == ms.len(),
            pb == part_bytes(parts@),
            enc_items(ms) == Ok::<Seq<Seq<u8>>, ErrorModel>(pb),
            ms.len() <= u32::MAX,
            forall|j: int| 0 <= j < parts@.len() ==> (#[trigger] parts@[j]).0 == model_tag(ms[j]),
            out@ == header + list_body(ms.take(k as int), pb.take(k as int), g),
            g == homogeneous_tag(ms),
            header == old(out)@ + u32_le(ms.len() as u32) + u16_le(elem_tag_code(g)),
        decreases parts@.len() - k,
    {
        if g.is_none() {
            put_u16_le(out, parts[k].0.to_u16());
        }
        put_slice(out, parts[k].1.as_slice());
        proof {
            assert(ms.take(k + 1).drop_last() =~= ms.take(k as int));
            assert(pb.take(k + 1).drop_last() =~= pb.take(k as int));
            assert(ms.take(k + 1).last() == ms[k as int]);
            assert(pb.take(k + 1).last() == parts@[k as int].1@);
        }
        k = k + 1;
    }
    assert(ms.take(k as int) =~= ms);
    assert(pb.take(k as int) =~= pb);
    proof {
        lemma_list_model(items);
        lemma_enc_payload_list(ms);
        assert(out@ =~= old(out)@ + (u32_le(ms.len() as u32) + u16_le(elem_tag_code(g)) + list_body(ms, pb, g)));
    }
    Ok(())
}

/// Appends the payload of a map.
fn write_map(es: &Vec<(PropValue, PropValue)>, out: &mut Vec<u8>) -> (r: Result<(), Error>)
    requires
        maps_fit(PropValue::PropMap(*es).model()),
    ensures
        appended(r, old(out)@, final(out)@, enc_payload(PropValue::PropMap(*es).model())),
    decreases es, 1int, 0int,
{
    proof {
        lemma_map_model(es);
        lemma_enc_payload_map(entry_models(es@));
    }
    let ghost ms = entry_models(es@);
    put_u32_le(out, es.len() as u32);
    let ghost header = out@;
    let mut i: usize = 0;
    while i < es.len()
        invariant
            i <= es@.len(),
            ms == entry_models(es@),
            maps_fit(PropModel::PropMap(ms)),
            PropValue::PropMap(*es).model() == PropModel::PropMap(ms),
            enc_entries(ms) is Err ==> enc_payload(PropModel::PropMap(ms)) == Err::<Seq<u8>, ErrorModel>(
                enc_entries(ms)->Err_0,
            ),
            header == old(out)@ + u32_le(es@.len() as u32),
            enc_entries(ms.take(i as int)) matches Ok(b) && out@ == header + b,
        decreases es@.len() - i,
    {
        let ghost before = out@;
        let ghost prev = enc_entries(ms.take(i as int))->Ok_0;
        assert(ms.take(i + 1).drop_last() =~= ms.take(i as int));
        assert(ms.take(i + 1)[i as int] == ms[i as int]);
        let entry = &es[i];
        match &entry.0 {
            PropValue::Str(s) => {
                let res = write_str(s, out);
                if let Err(e) = res {
                    proof {
                        lemma_enc_entries_err(ms, i + 1);
                    }
                    return Err(e);
                }
            },
            other => {
                let t = value_tag(other);
                proof {
                    lemma_enc_entries_err(ms, i + 1);
                }
                return Err(Error::InvalidPropertyType { tag: t.to_u16() });
            },
        }
        let ghost after_key = out@;
        let vt = value_tag(&entry.1);
        put_u16_le(out, vt.to_u16());
        proof {
            lemma_maps_fit_entry(ms, i as int);
        }
        proof {
            assert(decreases_to!(es => es@[i as int].1));
        }
        let ghost before_val = out@;
        let res = write_value_payload(&entry.1, out);
        if let Err(e) = res {
            proof {
                lemma_enc_entries_err(ms, i + 1);
            }
            return Err(e);
        }
        proof {
            let kb = enc_str(ms[i as int].0->Str_0)->Ok_0;
            let vb = enc_payload(ms[i as int].1)->Ok_0;
            assert(out@ =~= header + (prev + kb + u16_le(tag_code(model_tag(ms[i as int].1))) + vb));
        }
        i = i + 1;
    }
    assert(ms.take(i as int) =~= ms);
    proof {
        lemma_map_model(es);
        lemma_enc_payload_map(ms);
        let b = enc_entries(ms)->Ok_0;
        assert(out@ =~= old(out)@ + (u32_le(ms.len() as u32) + b));
    }
    Ok(())
}

/// Appends the payload of a tree.
fn write_value_payload(v: &PropValue, out: &mut Vec<u8>) -> (r: Result<(), Error>)
    requires
        maps_fit(v.model()),
    ensures
        appended(r, old(out)@, final(out)@, enc_payload(v.model())),
    decreases v, 3int, 0int,
{
    match v {
        PropValue::Bool(b) => {
            put_u8(out, if *b { 1u8 } else { 0u8 });
            assert(out@ =~= old(out)@ + enc_payload(v.model())->Ok_0);
        },
        PropValue::I8(x) => {
            put_u8(out, *x as u8);
            assert(out@ =~= old(out)@ + enc_payload(v.model())->Ok_0);
        },
        PropValue::U8(x) => {
            put_u8(out, *x);
            assert(out@ =~= old(out)@ + enc_payload(v.model())->Ok_0);
        },
        PropValue::I16(x) => {
            put_u16_le(out, *x as u16);
        },
        PropValue::U16(x) => {
            put_u16_le(out, *x);
        },
        PropValue::I32(x) => {
            put_u32_le(out, *x as u32);
        },
        PropValue::U32(x) => {
            put_u32_le(out, *x);
        },
        PropValue::I64(x) => {
            put_u64_le(out, *x as u64);
        },
        PropValue::U64(x) => {
            put_u64_le(out, *x);
        },
        PropValue::F32(x) => {
            put_u32_le(out, *x);
        },
        PropValue::F64(x) => {
            put_u64_le(out, *x);
        },
        PropValue::Str(s) => {
            return write_str(s, out);
        },
        PropValue::Point(x, y) => {
            put_u32_le(out, *x as u32);
            put_u32_le(out, *y as u32);
            assert(out@ =~= old(out)@ + (u32_le(*x as u32) + u32_le(*y as u32)));
        },
        PropValue::List(items) => {
            return write_list(items, out);
        },
        PropValue::PropMap(es) => {
            return write_map(es, out);
        },
    }
    Ok(())
}

/// Writes a property tree as a property map: the tree must be a map.
///
/// The result is the bytes of [`spec_serialize_prop_map`]: a map's payload,
/// or the error met first in writing order. A tree that is not a map is an
/// [`Error::InvalidPropertyType`] with its tag.
pub fn serialize_prop_map(value: &PropValue) -> (r: Result<Vec<u8>, Error>)
    requires
        maps_fit(value.model()),
    ensures
        match spec_serialize_prop_map(value.model()) {
            Ok(b) => r matches Ok(out) && out@ == b,
            Err(e) => r matches Err(x) && x@ == e,
        },
{
    match value {
        PropValue::PropMap(_) => {
            let mut out: Vec<u8> = Vec::new();
            match write_value_payload(value, &mut out) {
                Ok(()) => {
                    assert(out@ =~= Seq::<u8>::empty() + enc_payload(value.model())->Ok_0);
                    Ok(out)
                },
                Err(e) => Err(e),
            }
        },
        _ => {
            let t = value_tag(value);
            Err(Error::InvalidPropertyType { tag: t.to_u16() })
        },
    }
}

/// How a read failed, as the reader reports it.
enum DecodeFault {
    Fail(Error),
    Truncated,
}

impl DecodeFault {
    spec fn model(self) -> Fault {
        match self {
            DecodeFault::Fail(e) => Fault::Fail(e@),
            DecodeFault::Truncated => Fault::Truncated,
        }
    }
}

/// The error for a length-checked read of `expected` bytes from `actual`.
fn not_enough_bytes(expected: usize, actual: usize) -> (f: DecodeFault)
    ensures
        f.model() == not_enough(expected as int, actual as int),
{
    DecodeFault::Fail(Error::NotEnoughBytes { expected, actual })
}

/// Reads a string payload at `pos`.
fn read_str(data: &[u8], pos: usize) -> (r: Result<(String, usize), DecodeFault>)
    requires
        pos <= data@.len(),
    ensures
        match dec_str(data@.skip(pos as int)) {
            Ok((s, rest)) => r matches Ok((x, p)) && x@ == s && pos + 4 <= p <= data@.len()
                && data@.skip(p as int) == rest,
            Err(f) => r matches Err(x) && x.model() == f,
        },
{
    let avail = data.len() - pos;
    let ghost d = data@.skip(pos as int);
    if avail < 4 {
        return Err(not_enough_bytes(4, avail));
    }
    let n = get_u32_le(data, pos);
    assert(u32_at(d, 0) == n);
    let start = pos + 4;
    let rem = data.len() - start;
    assert(d.skip(4) =~= data@.skip(start as int));
    if rem < n as usize {
        return Err(not_enough_bytes(n as usize, rem));
    }
    let bytes = copy_range(data, start, n as usize);
    assert(bytes@ =~= d.skip(4).take(n as int));
    match string_from_utf8(bytes) {
        Some(s) => {
            assert(d.skip(4).skip(n as int) =~= data@.skip(start + n as usize));
            Ok((s, start + n as usize))
        },
        None => Err(DecodeFault::Fail(Error::InvalidUTF8)),
    }
}

/// The error for a tag that is not read.
fn unsupported(t: PropertyTag) -> (f: DecodeFault)
    requires
        !is_fixed(t),
        t != PropertyTag::String,
        t != PropertyTag::Vec,
        t != PropertyTag::PropMap,
    ensures
        f.model() == Fault::Fail(ErrorModel::UnsupportedType(unsupported_name(t))),
{
    let name: &str = match t {
        PropertyTag::FixedPoint => "FixedPoint",
        PropertyTag::Size => "Size32",
        PropertyTag::Rect => "Rect32",
        _ => "UUID",
    };
    DecodeFault::Fail(Error::UnsupportedType { name: name.to_owned() })
}

/// Reads a payload of tag `t` at `pos`; gives the tree and the position after it.
fn decode_payload(t: PropertyTag, data: &[u8], pos: usize) -> (r: Result<(PropValue, usize), DecodeFault>)
    requires
        pos <= data@.len(),
    ensures
        match dec_payload(t, data@.skip(pos as int)) {
            Ok((v, rest)) => r matches Ok((x, p)) && x.model() == v && pos < p <= data@.len()
                && data@.skip(p as int) == rest,
            Err(f) => r matches Err(x) && x.model() == f,
        },
    decreases data@.len() - pos, 0int, 0int,
{
    let avail = data.len() - pos;
    let ghost d = data@.skip(pos as int);
    match t {
        PropertyTag::Bool | PropertyTag::I8 | PropertyTag::U8 => {
            if avail < 1 {
                return Err(DecodeFault::Truncated);
            }
            let b = data[pos];
            assert(d[0] == b);
            assert(d.skip(1) =~= data@.skip(pos + 1));
            let v = match t {
                PropertyTag::Bool => PropValue::Bool(b != 0),
                PropertyTag::I8 => PropValue::I8(b as i8),
                _ => PropValue::U8(b),
            };
            Ok((v, pos + 1))
        },
        PropertyTag::I16 | PropertyTag::U16 => {
            if avail < 2 {
                return Err(DecodeFault::Truncated);
            }
            let x = get_u16_le(data, pos);
            assert(u16_at(d, 0) == x);
            assert(d.skip(2) =~= data@.skip(pos + 2));
            let v = match t {
                PropertyTag::I16 => PropValue::I16(x as i16),
                _ => PropValue::U16(x),
            };
            Ok((v, pos + 2))
        },
        PropertyTag::I32 | PropertyTag::U32 | PropertyTag::F32 => {
            if avail < 4 {
                return Err(DecodeFault::Truncated);
            }
            let x = get_u32_le(data, pos);
            assert(u32_at(d, 0) == x);
            assert(d.skip(4) =~= data@.skip(pos + 4));
            let v = match t {
                PropertyTag::I32 => PropValue::I32(x as i32),
                PropertyTag::U32 => PropValue::U32(x),
                _ => PropValue::F32(x),
            };
            Ok((v, pos + 4))
        },
        PropertyTag::I64 | PropertyTag::U64 | PropertyTag::F64 => {
            if avail < 8 {
                return Err(DecodeFault::Truncated);
            }
            let x = get_u64_le(data, pos);
            assert(u64_at(d, 0) == x);
            assert(d.skip(8) =~= data@.skip(pos + 8));
            let v = match t {
                PropertyTag::I64 => PropValue::I64(x as i64),
                PropertyTag::U64 => PropValue::U64(x),
                _ => PropValue::F64(x),
            };
            Ok((v, pos + 8))
        },
        PropertyTag::Point => {
            if avail < 8 {
                return Err(DecodeFault::Truncated);
            }
            let x = get_u32_le(data, pos);
            let y = get_u32_le(data, pos + 4);
            assert(u32_at(d, 0) == x);
            assert(u32_at(d, 4) == y);
            assert(d.skip(8) =~= data@.skip(pos + 8));
            Ok((PropValue::Point(x as i32, y as i32), pos + 8))
        },
        PropertyTag::String => {
            match read_str(data, pos) {
                Ok((s, p)) => Ok((PropValue::Str(s), p)),
                Err(f) => Err(f),
            }
        },
        PropertyTag::Vec => {
            if avail < 4 {
                return Err(not_enough_bytes(4, avail));
            }
            if avail < 6 {
                return Err(not_enough_bytes(2, avail - 4));
            }
            let count = get_u32_le(data, pos);
            let raw = get_u16_le(data, pos + 4);
            assert(u32_at(d, 0) == count);
            assert(u16_at(d, 4) == raw);
            assert(d.skip(6) =~= data@.skip(pos + 6));
            let g: Option<PropertyTag> = if raw == 0 {
                None
            } else {
                match PropertyTag::from_u16(raw) {
                    Ok(et) => Some(et),
                    Err(_) => {
                        return Err(DecodeFault::Fail(Error::InvalidPropertyType { tag: raw }));
                    },
                }
            };
            match decode_list(g, count, data, pos + 6) {
                Ok((items, p)) => {
                    proof {
                        lemma_list_model(&items);
                    }
                    Ok((PropValue::List(items), p))
                },
                Err(f) => Err(f),
            }
        },
        PropertyTag::PropMap => {
            if avail < 4 {
                return Err(not_enough_bytes(4, avail));
            }
            let count = get_u32_le(data, pos);
            assert(u32_at(d, 0) == count);
            assert(d.skip(4) =~= data@.skip(pos + 4));
            match decode_entries(count, data, pos + 4) {
                Ok((es, p)) => {
                    proof {
                        lemma_map_model(&es);
                    }
                    Ok((PropValue::PropMap(es), p))
                },
                Err(f) => Err(f),
            }
        },
        _ => Err(unsupported(t)),
    }
}

/// Reads `count` list elements at `pos`, each of tag `g` or, when `g` is
/// `None`, preceded by its own tag.
fn decode_list(g: Option<PropertyTag>, count: u32, data: &[u8], pos: usize) -> (r: Result<
    (Vec<PropValue>, usize),
    DecodeFault,
>)
    requires
        pos <= data@.len(),
    ensures
        match dec_list(g, count as nat, data@.skip(pos as int)) {
            Ok((vs, rest)) => r matches Ok((x, p)) && models(x@) == vs && pos <= p <= data@.len()
                && data@.skip(p as int) == rest,
            Err(f) => r matches Err(x) && x.model() == f,
        },
    decreases data@.len() - pos, 1int, count,
{
    let mut items: Vec<PropValue> = Vec::new();
    let mut p = pos;
    let mut rem = count;
    let ghost whole = dec_list(g, count as nat, data@.skip(pos as int));
    assert(models(items@) =~= Seq::<PropModel>::empty());
    while rem > 0
        invariant
            pos <= p <= data@.len(),
            whole == dec_list(g, count as nat, data@.skip(pos as int)),
            whole == match dec_list(g, rem as nat, data@.skip(p as int)) {
                Ok((vs, rest)) => Ok((models(items@) + vs, rest)),
                Err(f) => Err(f),
            },
        decreases rem,
    {
        let ghost d = data@.skip(p as int);
        let avail = data.len() - p;
        let (t, ppos) = match g {
            Some(t) => (t, p),
            None => {
                if avail < 2 {
                    return Err(not_enough_bytes(2, avail));
                }
                let raw = get_u16_le(data, p);
                assert(u16_at(d, 0) == raw);
                match PropertyTag::from_u16(raw) {
                    Ok(t) => {
                        assert(d.skip(2) =~= data@.skip(p + 2));
                        (t, p + 2)
                    },
                    Err(_) => {
                        return Err(DecodeFault::Fail(Error::InvalidPropertyType { tag: raw }));
                    },
                }
            },
        };
        match decode_payload(t, data, ppos) {
            Err(f) => {
                return Err(f);
            },
            Ok((v, np)) => {
                let ghost vs_items = items@;
                items.push(v);
                proof {
                    assert(models(items@) =~= models(vs_items).push(v.model()));
                    match dec_list(g, (rem - 1) as nat, data@.skip(np as int)) {
                        Ok((vs, rest)) => {
                            assert(models(vs_items) + (seq![v.model()] + vs) =~= models(items@)
                                + vs);
                        },
                        Err(_) => {},
                    }
                }
                p = np;
                rem = rem - 1;
            },
        }
    }
    assert(models(items@) + Seq::<PropModel>::empty() =~= models(items@));
    Ok((items, p))
}

/// Reads `count` map entries at `pos`.
fn decode_entries(count: u32, data: &[u8], pos: usize) -> (r: Result<
    (Vec<(PropValue, PropValue)>, usize),
    DecodeFault,
>)
    requires
        pos <= data@.len(),
    ensures
        match dec_entries(count as nat, data@.skip(pos as int)) {
            Ok((es, rest)) => r matches Ok((x, p)) && entry_models(x@) == es && pos <= p
                <= data@.len() && data@.skip(p as int) == rest,
            Err(f) => r matches Err(x) && x.model() == f,
        },
    decreases data@.len() - pos, 1int, count,
{
    let mut es: Vec<(PropValue, PropValue)> = Vec::new();
    let mut p = pos;
    let mut rem = count;
    let ghost whole = dec_entries(count as nat, data@.skip(pos as int));
    assert(entry_models(es@) =~= Seq::<(PropModel, PropModel)>::empty());
    while rem > 0
        invariant
            pos <= p <= data@.len(),
            whole == dec_entries(count as nat, data@.skip(pos as int)),
            whole == match dec_entries(rem as nat, data@.skip(p as int)) {
                Ok((vs, rest)) => Ok((entry_models(es@) + vs, rest)),
                Err(f) => Err(f),
            },
        decreases rem,
    {
        let ghost d = data@.skip(p as int);
        let (key, kp) = match read_str(data, p) {
            Ok(x) => x,
            Err(f) => {
                return Err(f);
            },
        };
        let avail = data.len() - kp;
        if avail < 2 {
            return Err(not_enough_bytes(2, avail));
        }
        let raw = get_u16_le(data, kp);
        assert(u16_at(data@.skip(kp as int), 0) == raw);
        let t = match PropertyTag::from_u16(raw) {
            Ok(t) => t,
            Err(_) => {
                return Err(DecodeFault::Fail(Error::InvalidPropertyType { tag: raw }));
            },
        };
        assert(data@.skip(kp as int).skip(2) =~= data@.skip(kp + 2));
        match decode_payload(t, data, kp + 2) {
            Err(f) => {
                return Err(f);
            },
            Ok((v, np)) => {
                let ghost prev = es@;
                let ghost km = PropModel::Str(key@);
                let ghost vm = v.model();
                es.push((PropValue::Str(key), v));
                proof {
                    assert(entry_models(es@) =~= entry_models(prev).push((km, vm)));
                    match dec_entries((rem - 1) as nat, data@.skip(np as int)) {
                        Ok((vs, rest)) => {
                            assert(entry_models(prev) + (seq![(km, vm)] + vs) =~= entry_models(
                                es@,
                            ) + vs);
                        },
                        Err(_) => {},
                    }
                }
                p = np;
                rem = rem - 1;
            },
        }
    }
    assert(entry_models(es@) + Seq::<(PropModel, PropModel)>::empty() =~= entry_models(es@));
    Ok((es, p))
}

/// Reads a property map from the front of `data`; bytes after it are not read.
///
/// The result is [`spec_read_prop_map`]: `None` where a fixed-size value is
/// cut short (a point or a number), else the tree or the first error met in
/// reading order.
pub fn decode_prop_map(data: &[u8]) -> (r: Option<Result<PropValue, Error>>)
    ensures
        match spec_read_prop_map(data@) {
            None => r is None,
            Some(Ok(v)) => r matches Some(Ok(x)) && x.model() == v,
            Some(Err(e)) => r matches Some(Err(x)) && x@ == e,
        },
{
    assert(data@.skip(0) =~= data@);
    match decode_payload(PropertyTag::PropMap, data, 0) {
        Ok((v, _)) => Some(Ok(v)),
        Err(DecodeFault::Fail(e)) => Some(Err(e)),
        Err(DecodeFault::Truncated) => None,
    }
}

/// Reads a property map from the front of `data`, where no fixed-size value
/// in it is cut short.
///
/// The result is the tree of [`spec_read_prop_map`], or the first error met
/// in reading order.
pub fn read_from_prop_map(data: &[u8]) -> (r: Result<PropValue, Error>)
    requires
        spec_read_prop_map(data@) is Some,
    ensures
        match spec_read_prop_map(data@) {
            Some(Ok(v)) => r matches Ok(x) && x.model() == v,
            Some(Err(e)) => r matches Err(x) && x@ == e,
            None => false,
        },
{
    decode_prop_map(data).unwrap()
}

/// An element of a writable list is writable, and the list's length fits in a `u32`.
proof fn lemma_writable_elem(ms: Seq<PropModel>, i: int)
    requires
        writable(PropModel::List(ms)),
        0 <= i < ms.len(),
    ensures
        writable(ms[i]),
        ms.len() <= u32::MAX,
{
    let m = PropModel::List(ms);
    assert(decreases_to!(m => m->List_0));
    assert(decreases_to!(m->List_0 => m->List_0[i]));
}

/// An entry of a writable map has a writable string key and a writable value.
proof fn lemma_writable_entry(es: Seq<(PropModel, PropModel)>, i: int)
    requires
        writable(PropModel::PropMap(es)),
        0 <= i < es.len(),
    ensures
        es[i].0 is Str,
        writable(es[i].0),
        writable(es[i].1),
        es.len() <= u32::MAX,
{
    let m = PropModel::PropMap(es);
    assert(decreases_to!(m => m->PropMap_0));
    assert(decreases_to!(m->PropMap_0 => m->PropMap_0[i]));
    assert(decreases_to!(m->PropMap_0[i] => m->PropMap_0[i].0));
    assert(decreases_to!(m->PropMap_0[i] => m->PropMap_0[i].1));
}

/// A writable tree has maps that fit.
pub proof fn lemma_writable_maps_fit(v: PropModel)
    requires
        writable(v),
    ensures
        maps_fit(v),
    decreases v,
{
    match v {
        PropModel::List(ms) => {
            assert forall|i: int| 0 <= i < ms.len() implies maps_fit(#[trigger] ms[i]) by {
                lemma_writable_elem(ms, i);
                assert(decreases_to!(v => v->List_0));
                assert(decreases_to!(v->List_0 => v->List_0[i]));
                lemma_writable_maps_fit(ms[i]);
            }
            assert(decreases_to!(v => v->List_0));
        },
        PropModel::PropMap(es) => {
            assert forall|i: int| 0 <= i < es.len() implies maps_fit(#[trigger] es[i].0) && maps_fit(
                es[i].1,
            ) by {
                lemma_writable_entry(es, i);
                assert(decreases_to!(v => v->PropMap_0));
                assert(decreases_to!(v->PropMap_0 => v->PropMap_0[i]));
                assert(decreases_to!(v->PropMap_0[i] => v->PropMap_0[i].0));
                assert(decreases_to!(v->PropMap_0[i] => v->PropMap_0[i].1));
                lemma_writable_maps_fit(es[i].0);
                lemma_writable_maps_fit(es[i].1);
            }
            lemma_writable_entry_len(es);
            assert(decreases_to!(v => v->PropMap_0));
        },
        _ => {},
    }
}

/// A writable map has at most `u32::MAX` entries.
proof fn lemma_writable_entry_len(es: Seq<(PropModel, PropModel)>)
    requires
        writable(PropModel::PropMap(es)),
    ensures
        es.len() <= u32::MAX,
{
}

/// A string's payload reads back as the string, leaving what follows it.
proof fn lemma_str_roundtrip(s: Seq<char>, t: Seq<u8>)
    requires
        encode_utf8(s).len() <= u32::MAX,
    ensures
        enc_str(s) is Ok,
        enc_str(s)->Ok_0.len() >= 4,
        dec_str(enc_str(s)->Ok_0 + t) == Ok::<(Seq<char>, Seq<u8>), Fault>((s, t)),
{
    let b = encode_utf8(s);
    let n = b.len() as u32;
    let d = u32_le(n) + b + t;
    assert(d.subrange(0, 4) =~= u32_le(n));
    lemma_u32_at(d, 0, n);
    assert(d.skip(4) =~= b + t);
    assert((b + t).take(n as int) =~= b);
    assert((b + t).skip(n as int) =~= t);
    encode_utf8_valid_utf8(s);
    encode_utf8_decode_utf8(s);
    assert(enc_str(s)->Ok_0 + t =~= d);
}

/// The bytes of one list element: its tag when the list has no shared tag,
/// then its payload.
pub open spec fn elem_bytes(v: PropModel, p: Seq<u8>, g: Option<PropertyTag>) -> Seq<u8> {
    (if g is None {
        u16_le(tag_code(model_tag(v)))
    } else {
        seq![]
    }) + p
}

/// A list body is the first element's bytes followed by the body of the rest.
proof fn lemma_list_body_front(items: Seq<PropModel>, parts: Seq<Seq<u8>>, g: Option<PropertyTag>)
    requires
        items.len() == parts.len(),
        items.len() > 0,
    ensures
        list_body(items, parts, g) == elem_bytes(items[0], parts[0], g) + list_body(
            items.skip(1),
            parts.skip(1),
            g,
        ),
    decreases items.len(),
{
    if items.len() == 1 {
        assert(items.skip(1).len() == 0);
        assert(list_body(items.drop_last(), parts.drop_last(), g) =~= Seq::<u8>::empty());
        assert(list_body(items, parts, g) =~= elem_bytes(items[0], parts[0], g));
    } else {
        lemma_list_body_front(items.drop_last(), parts.drop_last(), g);
        assert(items.drop_last().skip(1) =~= items.skip(1).drop_last());
        assert(parts.drop_last().skip(1) =~= parts.skip(1).drop_last());
        assert(items.skip(1).last() == items.last());
        assert(parts.skip(1).last() == parts.last());
        assert(list_body(items, parts, g) =~= elem_bytes(items[0], parts[0], g) + list_body(
            items.skip(1),
            parts.skip(1),
            g,
        ));
    }
}

/// The payloads of the elements of a list.
pub open spec fn payloads(items: Seq<PropModel>) -> Seq<Seq<u8>> {
    Seq::new(items.len(), |i: int| enc_payload(items[i])->Ok_0)
}

/// The element payloads of a list whose elements all write.
proof fn lemma_enc_items_ok(items: Seq<PropModel>)
    requires
        forall|i: int| 0 <= i < items.len() ==> (#[trigger] enc_payload(items[i])) is Ok,
    ensures
        enc_items(items) == Ok::<Seq<Seq<u8>>, ErrorModel>(payloads(items)),
    decreases items.len(),
{
    if items.len() > 0 {
        lemma_enc_items_ok(items.drop_last());
        let a = Seq::new(items.drop_last().len(), |i: int| enc_payload(items.drop_last()[i])->Ok_0);
        assert(enc_payload(items[items.len() - 1]) is Ok);
        assert(a.push(enc_payload(items[items.len() - 1])->Ok_0) =~= payloads(items));
    } else {
        assert(payloads(items) =~= Seq::<Seq<u8>>::empty());
    }
}

/// A payload that writes is at least one byte long.
proof fn lemma_payload_nonempty(v: PropModel)
    requires
        enc_payload(v) is Ok,
    ensures
        enc_payload(v)->Ok_0.len() >= 1,
{
    match v {
        PropModel::List(ms) => {
            lemma_enc_payload_list(ms);
        },
        PropModel::PropMap(es) => {
            lemma_enc_payload_map(es);
        },
        PropModel::Str(s) => {},
        PropModel::Point(x, y) => {},
        PropModel::I16(x) => {},
        PropModel::U16(x) => {},
        PropModel::I32(x) => {},
        PropModel::U32(x) => {},
        PropModel::F32(x) => {},
        PropModel::I64(x) => {},
        PropModel::U64(x) => {},
        PropModel::F64(x) => {},
        _ => {},
    }
}


/// Reading list elements: the first element, then the others from what
/// follows it.
proof fn lemma_dec_list_cons(
    g: Option<PropertyTag>,
    count: nat,
    d: Seq<u8>,
    v: PropModel,
    r: Seq<u8>,
)
    requires
        count > 0,
        r.len() < d.len(),
        g matches Some(tg) ==> dec_payload(tg, d) == Ok::<(PropModel, Seq<u8>), Fault>((v, r)),
        g is None ==> d.len() >= 2 && tag_of_code(u16_at(d, 0)) is Some && dec_payload(
            tag_of_code(u16_at(d, 0))->Some_0,
            d.skip(2),
        ) == Ok::<(PropModel, Seq<u8>), Fault>((v, r)),
    ensures
        dec_list(g, count, d) == match dec_list(g, (count - 1) as nat, r) {
            Err(f) => Err(f),
            Ok((vs, r2)) => Ok((seq![v] + vs, r2)),
        },
{
}

/// Reading map entries: the first entry, then the others from what follows it.
proof fn lemma_dec_entries_cons(
    count: nat,
    d: Seq<u8>,
    k: Seq<char>,
    r1: Seq<u8>,
    t: PropertyTag,
    v: PropModel,
    r2: Seq<u8>,
)
    requires
        count > 0,
        dec_str(d) == Ok::<(Seq<char>, Seq<u8>), Fault>((k, r1)),
        r1.len() >= 2,
        r1.len() <= d.len(),
        tag_of_code(u16_at(r1, 0)) == Some(t),
        dec_payload(t, r1.skip(2)) == Ok::<(PropModel, Seq<u8>), Fault>((v, r2)),
        r2.len() < d.len(),
    ensures
        dec_entries(count, d) == match dec_entries((count - 1) as nat, r2) {
            Err(f) => Err(f),
            Ok((es, r3)) => Ok((seq![(PropModel::Str(k), v)] + es, r3)),
        },
{
}

/// The elements of a list of writable trees write.
proof fn lemma_items_write(items: Seq<PropModel>)
    requires
        forall|i: int| 0 <= i < items.len() ==> writable(#[trigger] items[i]),
    ensures
        forall|i: int| 0 <= i < items.len() ==> (#[trigger] enc_payload(items[i])) is Ok,
    decreases items, 0int, 0int,
{
    assert forall|i: int| 0 <= i < items.len() implies (#[trigger] enc_payload(items[i])) is Ok by {
        assert(decreases_to!(items => items[i]));
        lemma_payload_roundtrip(items[i], seq![]);
    }
}

/// The body of a non-empty list splits into its first element's bytes and
/// the body of the rest.
proof fn lemma_list_split(items: Seq<PropModel>, g: Option<PropertyTag>, t: Seq<u8>)
    requires
        items.len() > 0,
        forall|i: int| 0 <= i < items.len() ==> (#[trigger] enc_payload(items[i])) is Ok,
    ensures
        list_body(items, payloads(items), g) + t == elem_bytes(
            items[0],
            enc_payload(items[0])->Ok_0,
            g,
        ) + (list_body(items.skip(1), payloads(items.skip(1)), g) + t),
        enc_payload(items[0])->Ok_0.len() >= 1,
{
    let parts = payloads(items);
    assert(payloads(items.skip(1)) =~= parts.skip(1));
    lemma_list_body_front(items, parts, g);
    assert(enc_payload(items[0]) is Ok);
    lemma_payload_nonempty(items[0]);
    assert(list_body(items, parts, g) + t =~= elem_bytes(items[0], parts[0], g) + (list_body(
        items.skip(1),
        payloads(items.skip(1)),
        g,
    ) + t));
}

/// A list element, written with tag `g` shared by the list or with its own
/// tag, reads back as the element.
proof fn lemma_elem_roundtrip(v: PropModel, g: Option<PropertyTag>, tail: Seq<u8>)
    requires
        writable(v),
        g matches Some(tg) ==> tg == model_tag(v),
    ensures
        enc_payload(v) is Ok,
        ({
            let d = elem_bytes(v, enc_payload(v)->Ok_0, g) + tail;
            &&& g matches Some(tg) ==> dec_payload(tg, d) == Ok::<(PropModel, Seq<u8>), Fault>(
                (v, tail),
            )
            &&& g is None ==> d.len() >= 2 && tag_of_code(u16_at(d, 0)) is Some && dec_payload(
                tag_of_code(u16_at(d, 0))->Some_0,
                d.skip(2),
            ) == Ok::<(PropModel, Seq<u8>), Fault>((v, tail))
        }),
    decreases v, 5int, 0int,
{
    lemma_payload_roundtrip(v, tail);
    let p = enc_payload(v)->Ok_0;
    let d = elem_bytes(v, p, g) + tail;
    match g {
        Some(tg) => {
            assert(d =~= p + tail);
        },
        None => {
            let code = tag_code(model_tag(v));
            assert(d.subrange(0, 2) =~= u16_le(code));
            lemma_u16_at(d, 0, code);
            lemma_tag_code_roundtrip(model_tag(v), code);
            assert(d.skip(2) =~= p + tail);
        },
    }
}

/// The list elements, written with tag `g` shared by them all or with their
/// own tags, read back as the elements, leaving what follows them.
proof fn lemma_list_roundtrip(items: Seq<PropModel>, g: Option<PropertyTag>, t: Seq<u8>)
    requires
        forall|i: int| 0 <= i < items.len() ==> writable(#[trigger] items[i]),
        g matches Some(tg) ==> forall|i: int|
            0 <= i < items.len() ==> model_tag(#[trigger] items[i]) == tg,
    ensures
        forall|i: int| 0 <= i < items.len() ==> (#[trigger] enc_payload(items[i])) is Ok,
        dec_list(g, items.len(), list_body(items, payloads(items), g) + t) == Ok::<
            (Seq<PropModel>, Seq<u8>),
            Fault,
        >((items, t)),
    decreases items, 1int, 0int,
{
    lemma_items_write(items);
    if items.len() == 0 {
        assert(list_body(items, payloads(items), g) + t =~= t);
        assert(items =~= Seq::<PropModel>::empty());
    } else {
        let rest = items.skip(1);
        let v = items[0];
        let tail = list_body(rest, payloads(rest), g) + t;
        let d = list_body(items, payloads(items), g) + t;
        assert(decreases_to!(items => rest));
        lemma_list_roundtrip(rest, g, t);
        lemma_list_split(items, g, t);
        assert(decreases_to!(items => items[0]));
        lemma_elem_roundtrip(v, g, tail);
        lemma_dec_list_cons(g, items.len(), d, v, tail);
        assert(seq![v] + rest =~= items);
    }
}

/// The bytes of one map entry: the key's payload, the value's tag, and the
/// value's payload.
pub open spec fn entry_bytes(e: (PropModel, PropModel)) -> Seq<u8> {
    enc_str(e.0->Str_0)->Ok_0 + u16_le(tag_code(model_tag(e.1))) + enc_payload(e.1)->Ok_0
}

/// The entries of a writable map write as the bytes of its first entry
/// followed by those of the rest.
proof fn lemma_entries_front(es: Seq<(PropModel, PropModel)>)
    requires
        forall|i: int|
            0 <= i < es.len() ==> (#[trigger] es[i]).0 is Str && encode_utf8(es[i].0->Str_0).len()
                <= u32::MAX && enc_payload(es[i].1) is Ok,
    ensures
        enc_entries(es) is Ok,
        es.len() > 0 ==> enc_entries(es)->Ok_0 == entry_bytes(es[0]) + enc_entries(
            es.skip(1),
        )->Ok_0,
    decreases es.len(),
{
    if es.len() > 0 {
        lemma_entries_front(es.drop_last());
        assert(es.drop_last().len() == es.len() - 1);
        let last = es[es.len() - 1];
        assert(last.0 is Str);
        if es.len() == 1 {
            assert(es.skip(1).len() == 0);
            assert(enc_entries(es.drop_last()) == Ok::<Seq<u8>, ErrorModel>(seq![]));
            assert(enc_entries(es)->Ok_0 =~= entry_bytes(es[0]));
            assert(enc_entries(es.skip(1)) == Ok::<Seq<u8>, ErrorModel>(seq![]));
            assert(enc_entries(es)->Ok_0 =~= entry_bytes(es[0]) + enc_entries(
                es.skip(1),
            )->Ok_0);
        } else {
            lemma_entries_front(es.skip(1));
            assert(es.skip(1).drop_last() =~= es.drop_last().skip(1));
            assert(es.skip(1)[es.skip(1).len() - 1] == last);
            assert(es.drop_last()[0] == es[0]);
            assert(enc_entries(es)->Ok_0 =~= entry_bytes(es[0]) + enc_entries(
                es.skip(1),
            )->Ok_0);
        }
    }
}

/// The entries of a map with writable string keys and writable values write.
proof fn lemma_entries_write(es: Seq<(PropModel, PropModel)>)
    requires
        forall|i: int|
            0 <= i < es.len() ==> (#[trigger] es[i]).0 is Str && writable(es[i].0) && writable(
                es[i].1,
            ),
    ensures
        forall|i: int|
            0 <= i < es.len() ==> (#[trigger] es[i]).0 is Str && encode_utf8(es[i].0->Str_0).len()
                <= u32::MAX && enc_payload(es[i].1) is Ok,
    decreases es, 0int, 0int,
{
    assert forall|i: int|
        0 <= i < es.len() implies (#[trigger] es[i]).0 is Str && encode_utf8(es[i].0->Str_0).len()
        <= u32::MAX && enc_payload(es[i].1) is Ok by {
        assert(writable(es[i].0));
        assert(decreases_to!(es => es[i]));
        assert(decreases_to!(es[i] => es[i].1));
        lemma_payload_roundtrip(es[i].1, seq![]);
    }
}

/// What follows the key of an entry whose value is `v`: the value's tag and
/// payload, then `tail`.
pub open spec fn after_key(v: PropModel, tail: Seq<u8>) -> Seq<u8> {
    u16_le(tag_code(model_tag(v))) + enc_payload(v)->Ok_0 + tail
}

/// The entries of a map split into the bytes of the first entry and the
/// entries of the rest.
proof fn lemma_entries_split(es: Seq<(PropModel, PropModel)>, t: Seq<u8>)
    requires
        es.len() > 0,
        forall|i: int|
            0 <= i < es.len() ==> (#[trigger] es[i]).0 is Str && encode_utf8(es[i].0->Str_0).len()
                <= u32::MAX && enc_payload(es[i].1) is Ok,
    ensures
        enc_entries(es) is Ok,
        enc_entries(es.skip(1)) is Ok,
        enc_entries(es)->Ok_0 + t == entry_bytes((PropModel::Str(es[0].0->Str_0), es[0].1)) + (
        enc_entries(es.skip(1))->Ok_0 + t),
{
    lemma_entries_front(es);
    assert(es.skip(1).len() == es.len() - 1);
    assert forall|i: int|
        0 <= i < es.skip(1).len() implies (#[trigger] es.skip(1)[i]).0 is Str && encode_utf8(
        es.skip(1)[i].0->Str_0,
    ).len() <= u32::MAX && enc_payload(es.skip(1)[i].1) is Ok by {
        assert(es.skip(1)[i] == es[i + 1]);
    }
    lemma_entries_front(es.skip(1));
    assert((PropModel::Str(es[0].0->Str_0), es[0].1) == es[0]);
}

/// One map entry reads back as its string key and value, leaving what
/// follows it.
proof fn lemma_entry_roundtrip(k: Seq<char>, v: PropModel, tail: Seq<u8>)
    requires
        encode_utf8(k).len() <= u32::MAX,
        writable(v),
    ensures
        enc_payload(v) is Ok,
        ({
            let d = entry_bytes((PropModel::Str(k), v)) + tail;
            let r1 = after_key(v, tail);
            &&& dec_str(d) == Ok::<(Seq<char>, Seq<u8>), Fault>((k, r1))
            &&& r1.len() >= 2
            &&& r1.len() <= d.len()
            &&& tag_of_code(u16_at(r1, 0)) == Some(model_tag(v))
            &&& dec_payload(model_tag(v), r1.skip(2)) == Ok::<(PropModel, Seq<u8>), Fault>(
                (v, tail),
            )
            &&& tail.len() < d.len()
        }),
    decreases v, 5int, 0int,
{
    lemma_payload_roundtrip(v, tail);
    lemma_payload_nonempty(v);
    let code = tag_code(model_tag(v));
    let vb = enc_payload(v)->Ok_0;
    let kb = enc_str(k)->Ok_0;
    let r1 = u16_le(code) + vb + tail;
    let d = entry_bytes((PropModel::Str(k), v)) + tail;
    lemma_str_roundtrip(k, r1);
    assert(d =~= kb + r1);
    assert(r1.subrange(0, 2) =~= u16_le(code));
    lemma_u16_at(r1, 0, code);
    lemma_tag_code_roundtrip(model_tag(v), code);
    assert(r1.skip(2) =~= vb + tail);
}

/// The entries of a map read back as the entries, leaving what follows them.
proof fn lemma_entries_roundtrip(es: Seq<(PropModel, PropModel)>, t: Seq<u8>)
    requires
        forall|i: int|
            0 <= i < es.len() ==> (#[trigger] es[i]).0 is Str && writable(es[i].0) && writable(
                es[i].1,
            ),
    ensures
        enc_entries(es) is Ok,
        dec_entries(es.len(), enc_entries(es)->Ok_0 + t) == Ok::<
            (Seq<(PropModel, PropModel)>, Seq<u8>),
            Fault,
        >((es, t)),
    decreases es, 1int, 0int,
{
    lemma_entries_write(es);
    lemma_entries_front(es);
    if es.len() == 0 {
        assert(enc_entries(es)->Ok_0 + t =~= t);
        assert(es =~= Seq::<(PropModel, PropModel)>::empty());
    } else {
        let rest = es.skip(1);
        assert(decreases_to!(es => rest));
        lemma_entries_roundtrip(rest, t);
        let tail = enc_entries(rest)->Ok_0 + t;
        let k = es[0].0->Str_0;
        let v = es[0].1;
        let d = enc_entries(es)->Ok_0 + t;
        lemma_entries_split(es, t);
        assert(writable(es[0].0));
        assert(decreases_to!(es => es[0]));
        assert(decreases_to!(es[0] => es[0].1));
        lemma_entry_roundtrip(k, v, tail);
        let r1 = after_key(v, tail);
        lemma_dec_entries_cons(es.len(), d, k, r1, model_tag(v), v, tail);
        assert(seq![(PropModel::Str(k), v)] + rest =~= es);
    }
}

/// A fixed-size payload reads back as the value, leaving what follows it.
proof fn lemma_fixed_roundtrip(v: PropModel, t: Seq<u8>)
    requires
        is_fixed(model_tag(v)),
    ensures
        enc_payload(v) is Ok,
        dec_payload(model_tag(v), enc_payload(v)->Ok_0 + t) == Ok::<(PropModel, Seq<u8>), Fault>(
            (v, t),
        ),
{
    let e = enc_payload(v)->Ok_0;
    let d = e + t;
    match v {
        PropModel::Bool(b) => {
            assert(d[0] == e[0]);
            assert(d.skip(1) =~= t);
        },
        PropModel::I8(x) => {
            lemma_signed_casts(x, 0, 0, 0);
            assert(d[0] == e[0]);
            assert(d.skip(1) =~= t);
        },
        PropModel::U8(x) => {
            assert(d[0] == e[0]);
            assert(d.skip(1) =~= t);
        },
        PropModel::I16(x) => {
            lemma_signed_casts(0, x, 0, 0);
            assert(d.subrange(0, 2) =~= u16_le(x as u16));
            lemma_u16_at(d, 0, x as u16);
            assert(d.skip(2) =~= t);
        },
        PropModel::U16(x) => {
            assert(d.subrange(0, 2) =~= u16_le(x));
            lemma_u16_at(d, 0, x);
            assert(d.skip(2) =~= t);
        },
        PropModel::I32(x) => {
            lemma_signed_casts(0, 0, x, 0);
            assert(d.subrange(0, 4) =~= u32_le(x as u32));
            lemma_u32_at(d, 0, x as u32);
            assert(d.skip(4) =~= t);
        },
        PropModel::U32(x) => {
            assert(d.subrange(0, 4) =~= u32_le(x));
            lemma_u32_at(d, 0, x);
            assert(d.skip(4) =~= t);
        },
        PropModel::F32(x) => {
            assert(d.subrange(0, 4) =~= u32_le(x));
            lemma_u32_at(d, 0, x);
            assert(d.skip(4) =~= t);
        },
        PropModel::I64(x) => {
            lemma_signed_casts(0, 0, 0, x);
            assert(d.subrange(0, 8) =~= u64_le(x as u64));
            lemma_u64_at(d, 0, x as u64);
            assert(d.skip(8) =~= t);
        },
        PropModel::U64(x) => {
            assert(d.subrange(0, 8) =~= u64_le(x));
            lemma_u64_at(d, 0, x);
            assert(d.skip(8) =~= t);
        },
        PropModel::F64(x) => {
            assert(d.subrange(0, 8) =~= u64_le(x));
            lemma_u64_at(d, 0, x);
            assert(d.skip(8) =~= t);
        },
        PropModel::Point(x, y) => {
            lemma_signed_casts(0, 0, x, 0);
            lemma_signed_casts(0, 0, y, 0);
            assert(d.subrange(0, 4) =~= u32_le(x as u32));
            lemma_u32_at(d, 0, x as u32);
            assert(d.subrange(4, 8) =~= u32_le(y as u32));
            lemma_u32_at(d, 4, y as u32);
            assert(d.skip(8) =~= t);
        },
        _ => {},
    }
}

/// A list's payload reads back as the list, leaving what follows it.
proof fn lemma_list_payload_roundtrip(ms: Seq<PropModel>, t: Seq<u8>)
    requires
        writable(PropModel::List(ms)),
    ensures
        enc_payload(PropModel::List(ms)) is Ok,
        dec_payload(PropertyTag::Vec, enc_payload(PropModel::List(ms))->Ok_0 + t) == Ok::<
            (PropModel, Seq<u8>),
            Fault,
        >((PropModel::List(ms), t)),
    decreases ms, 4int, 0int,
{
    lemma_enc_payload_list(ms);
    assert forall|i: int| 0 <= i < ms.len() implies writable(#[trigger] ms[i]) by {
        lemma_writable_elem(ms, i);
    }
    let g = homogeneous_tag(ms);
    let parts = payloads(ms);
    lemma_list_roundtrip(ms, g, t);
    lemma_enc_items_ok(ms);
    if ms.len() > 0 {
        lemma_writable_elem(ms, 0);
    }
    let n = ms.len() as u32;
    let code = elem_tag_code(g);
    let body = list_body(ms, parts, g);
    let e = enc_payload(PropModel::List(ms))->Ok_0;
    let d = e + t;
    assert(e =~= u32_le(n) + u16_le(code) + body);
    assert(d.subrange(0, 4) =~= u32_le(n));
    lemma_u32_at(d, 0, n);
    assert(d.subrange(4, 6) =~= u16_le(code));
    lemma_u16_at(d, 4, code);
    assert(d.skip(6) =~= body + t);
    match g {
        Some(tg) => {
            lemma_tag_code_roundtrip(tg, code);
        },
        None => {},
    }
}

/// A map's payload reads back as the map, leaving what follows it.
proof fn lemma_map_payload_roundtrip(es: Seq<(PropModel, PropModel)>, t: Seq<u8>)
    requires
        writable(PropModel::PropMap(es)),
    ensures
        enc_payload(PropModel::PropMap(es)) is Ok,
        dec_payload(PropertyTag::PropMap, enc_payload(PropModel::PropMap(es))->Ok_0 + t) == Ok::<
            (PropModel, Seq<u8>),
            Fault,
        >((PropModel::PropMap(es), t)),
    decreases es, 4int, 0int,
{
    lemma_enc_payload_map(es);
    assert forall|i: int|
        0 <= i < es.len() implies (#[trigger] es[i]).0 is Str && writable(es[i].0) && writable(
        es[i].1,
    ) by {
        lemma_writable_entry(es, i);
    }
    lemma_entries_roundtrip(es, t);
    lemma_writable_entry_len(es);
    let n = es.len() as u32;
    let b = enc_entries(es)->Ok_0;
    let e = enc_payload(PropModel::PropMap(es))->Ok_0;
    let d = e + t;
    assert(e =~= u32_le(n) + b);
    assert(d.subrange(0, 4) =~= u32_le(n));
    lemma_u32_at(d, 0, n);
    assert(d.skip(4) =~= b + t);
}

/// Reading a payload written from a writable tree gives the tree back,
/// leaving what follows it.
pub proof fn lemma_payload_roundtrip(v: PropModel, t: Seq<u8>)
    requires
        writable(v),
    ensures
        enc_payload(v) is Ok,
        dec_payload(model_tag(v), enc_payload(v)->Ok_0 + t) == Ok::<(PropModel, Seq<u8>), Fault>(
            (v, t),
        ),
    decreases v, 3int, 0int,
{
    match v {
        PropModel::Str(s) => {
            lemma_str_roundtrip(s, t);
        },
        PropModel::List(ms) => {
            assert(decreases_to!(v => v->List_0));
            lemma_list_payload_roundtrip(ms, t);
        },
        PropModel::PropMap(es) => {
            assert(decreases_to!(v => v->PropMap_0));
            lemma_map_payload_roundtrip(es, t);
        },
        _ => {
            lemma_fixed_roundtrip(v, t);
        },
    }
}

/// Writing then reading a property map gives it back: for a writable tree,
/// [`spec_serialize_prop_map`] succeeds exactly when the tree is a map, and
/// [`spec_read_prop_map`] of its bytes, with anything after them, is the tree.
pub proof fn lemma_prop_map_roundtrip(v: PropModel, t: Seq<u8>)
    requires
        writable(v),
    ensures
        spec_serialize_prop_map(v) is Ok <==> v is PropMap,
        spec_serialize_prop_map(v) matches Ok(b) ==> spec_read_prop_map(b + t) == Some(
            Ok::<PropModel, ErrorModel>(v),
        ),
{
    lemma_payload_roundtrip(v, t);
}

/// When the elements' payloads can be written, each element's can.
proof fn lemma_items_ok(items: Seq<PropModel>)
    requires
        enc_items(items) is Ok,
    ensures
        forall|i: int| 0 <= i < items.len() ==> enc_payload(#[trigger] items[i]) is Ok,
    decreases items.len(),
{
    if items.len() > 0 {
        let p = items.drop_last();
        lemma_items_ok(p);
        assert forall|i: int| 0 <= i < items.len() implies enc_payload(#[trigger] items[i]) is Ok by {
            if i < items.len() - 1 {
                assert(items[i] == p[i]);
            }
        }
    }
}

/// When a map's entries can be written, each key is a string that can be
/// written, and each value can be written.
proof fn lemma_entries_ok(es: Seq<(PropModel, PropModel)>)
    requires
        enc_entries(es) is Ok,
    ensures
        forall|i: int|
            0 <= i < es.len() ==> (#[trigger] es[i].0 is Str) && enc_payload(es[i].0) is Ok
                && enc_payload(es[i].1) is Ok,
    decreases es.len(),
{
    if es.len() > 0 {
        let p = es.drop_last();
        lemma_entries_ok(p);
        assert forall|i: int| 0 <= i < es.len() implies (#[trigger] es[i].0 is Str) && enc_payload(
            es[i].0,
        ) is Ok && enc_payload(es[i].1) is Ok by {
            if i < es.len() - 1 {
                assert(es[i] == p[i]);
            }
        }
    }
}

/// A tree whose maps fit and whose payload can be written is writable.
proof fn lemma_ok_payload_writable(v: PropModel)
    requires
        maps_fit(v),
        enc_payload(v) is Ok,
    ensures
        writable(v),
    decreases v,
{
    match v {
        PropModel::List(items) => {
            lemma_items_ok(items);
            assert forall|i: int| 0 <= i < items.len() implies writable(#[trigger] items[i]) by {
                assert(decreases_to!(v => items[i]));
                lemma_ok_payload_writable(items[i]);
            }
        },
        PropModel::PropMap(es) => {
            lemma_entries_ok(es);
            assert forall|i: int| 0 <= i < es.len() implies (#[trigger] es[i].0 is Str) && writable(
                es[i].0,
            ) && writable(es[i].1) by {
                assert(decreases_to!(v => es[i].0));
                assert(decreases_to!(v => es[i].1));
                lemma_ok_payload_writable(es[i].0);
                lemma_ok_payload_writable(es[i].1);
            }
        },
        _ => {},
    }
}

/// What `serialize_prop_map` writes, on a tree whose maps fit, is read back
/// as that tree, whatever bytes follow: success in writing leaves nothing
/// that the reader could not take back.
pub proof fn lemma_serialized_reads_back(v: PropModel, t: Seq<u8>)
    requires
        maps_fit(v),
        spec_serialize_prop_map(v) is Ok,
    ensures
        writable(v),
        spec_read_prop_map(spec_serialize_prop_map(v)->Ok_0 + t) == Some(Ok::<PropModel, ErrorModel>(v)),
{
    lemma_ok_payload_writable(v);
    lemma_prop_map_roundtrip(v, t);
}

} // verus!
