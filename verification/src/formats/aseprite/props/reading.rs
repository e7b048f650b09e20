//! How property values are read back from the bytes of the user-data
//! property format, and the laws that what the writer appends reads back
//! as the value written.
use vstd::prelude::*;
use vstd::utf8::{decode_utf8, encode_utf8, encode_utf8_decode_utf8, encode_utf8_valid_utf8, valid_utf8};

use crate::bytes_le::{
    lemma_signed_casts, lemma_u16_at, lemma_u32_at, lemma_u64_at, u16_at, u16_le, u32_at, u32_le,
    u64_at, u64_le,
};
use crate::formats::aseprite::props::{
    entries_bytes, group_code, items_bytes, lemma_tag_code_roundtrip, prop_tag, string_bytes,
    tag_code, tag_of_code, typed_bytes, untyped_bytes, PropertyModel, PropertyTag,
};

verus! {

/// Reads a string from the front of `d`: its UTF-8 byte count as a `u16`,
/// then the bytes; gives it and the bytes after it.
pub open spec fn read_string(d: Seq<u8>) -> Option<(Seq<char>, Seq<u8>)> {
    if d.len() < 2 {
        None
    } else {
        let n = u16_at(d, 0) as int;
        if d.len() < 2 + n || !valid_utf8(d.subrange(2, 2 + n)) {
            None
        } else {
            Some((decode_utf8(d.subrange(2, 2 + n)), d.skip(2 + n)))
        }
    }
}

/// Reads a value of type `t` from the front of `d`, nested at most `fuel`
/// levels deep: the value and the bytes after it. Numbers are read
/// little-endian; a point is its x then its y, a size its width then its
/// height, a rectangle its x, y, width and height; a list is its item
/// count, its items' common type number (0 when each item gives its own
/// type first), and its items; a map its entry count, then each key and
/// its value with its type.
pub open spec fn read_untyped(t: PropertyTag, d: Seq<u8>, fuel: nat) -> Option<(PropertyModel, Seq<u8>)>
    decreases fuel, 0nat,
{
    if fuel == 0 {
        None
    } else {
        match t {
            PropertyTag::Bool => if d.len() < 1 { None } else { Some((PropertyModel::Bool(d[0] != 0), d.skip(1))) },
            PropertyTag::I8 => if d.len() < 1 { None } else { Some((PropertyModel::I8(d[0] as i8), d.skip(1))) },
            PropertyTag::U8 => if d.len() < 1 { None } else { Some((PropertyModel::U8(d[0]), d.skip(1))) },
            PropertyTag::I16 => if d.len() < 2 {
                None
            } else {
                Some((PropertyModel::I16(u16_at(d, 0) as i16), d.skip(2)))
            },
            PropertyTag::U16 => if d.len() < 2 { None } else { Some((PropertyModel::U16(u16_at(d, 0)), d.skip(2))) },
            PropertyTag::I32 => if d.len() < 4 {
                None
            } else {
                Some((PropertyModel::I32(u32_at(d, 0) as i32), d.skip(4)))
            },
            PropertyTag::U32 => if d.len() < 4 { None } else { Some((PropertyModel::U32(u32_at(d, 0)), d.skip(4))) },
            PropertyTag::I64 => if d.len() < 8 {
                None
            } else {
                Some((PropertyModel::I64(u64_at(d, 0) as i64), d.skip(8)))
            },
            PropertyTag::U64 => if d.len() < 8 { None } else { Some((PropertyModel::U64(u64_at(d, 0)), d.skip(8))) },
            PropertyTag::FixedPoint => if d.len() < 4 {
                None
            } else {
                Some((PropertyModel::FixedPoint(u32_at(d, 0) as i32), d.skip(4)))
            },
            PropertyTag::F32 => if d.len() < 4 { None } else { Some((PropertyModel::F32(u32_at(d, 0)), d.skip(4))) },
            PropertyTag::F64 => if d.len() < 8 { None } else { Some((PropertyModel::F64(u64_at(d, 0)), d.skip(8))) },
            PropertyTag::String => match read_string(d) {
                Some((s, r)) => Some((PropertyModel::Str(s), r)),
                None => None,
            },
            PropertyTag::Point => if d.len() < 8 {
                None
            } else {
                Some((PropertyModel::Point(u32_at(d, 0) as i32, u32_at(d, 4) as i32), d.skip(8)))
            },
            PropertyTag::Size => if d.len() < 8 {
                None
            } else {
                Some((PropertyModel::Size(u32_at(d, 0) as i32, u32_at(d, 4) as i32), d.skip(8)))
            },
            PropertyTag::Rect => if d.len() < 16 {
                None
            } else {
                Some(
                    (
                        PropertyModel::Rect(
                            u32_at(d, 0) as i32,
                            u32_at(d, 4) as i32,
                            u32_at(d, 8) as i32,
                            u32_at(d, 12) as i32,
                        ),
                        d.skip(16),
                    ),
                )
            },
            PropertyTag::Vec => if d.len() < 6 {
                None
            } else {
                match read_items(d.skip(6), u32_at(d, 0) as nat, u16_at(d, 4), (fuel - 1) as nat) {
                    Some((items, r)) => Some((PropertyModel::List(items), r)),
                    None => None,
                }
            },
            PropertyTag::PropMap => if d.len() < 4 {
                None
            } else {
                match read_entries(d.skip(4), u32_at(d, 0) as nat, (fuel - 1) as nat) {
                    Some((es, r)) => Some((PropertyModel::PropMap(es), r)),
                    None => None,
                }
            },
            PropertyTag::Uuid => if d.len() < 16 { None } else { Some((PropertyModel::Uuid(d.take(16)), d.skip(16))) },
        }
    }
}

/// Reads a value with its type from the front of `d`: the type number,
/// then the value.
pub open spec fn read_typed_value(d: Seq<u8>, fuel: nat) -> Option<(PropertyModel, Seq<u8>)>
    decreases fuel, 1nat,
{
    if d.len() < 2 {
        None
    } else {
        match tag_of_code(u16_at(d, 0)) {
            Some(t) => read_untyped(t, d.skip(2), fuel),
            None => None,
        }
    }
}

/// Reads `n` list items from the front of `d`, each of type `g`, or each
/// with its own type first when `g` is 0.
pub open spec fn read_items(d: Seq<u8>, n: nat, g: u16, fuel: nat) -> Option<(Seq<PropertyModel>, Seq<u8>)>
    decreases fuel, 2nat,
{
    if fuel == 0 {
        None
    } else if n == 0 {
        Some((seq![], d))
    } else {
        let item = if g == 0 {
            read_typed_value(d, (fuel - 1) as nat)
        } else {
            match tag_of_code(g) {
                Some(t) => read_untyped(t, d, (fuel - 1) as nat),
                None => None,
            }
        };
        match item {
            None => None,
            Some((x, r)) => match read_items(r, (n - 1) as nat, g, (fuel - 1) as nat) {
                None => None,
                Some((xs, r2)) => Some((seq![x] + xs, r2)),
            },
        }
    }
}

/// Reads `n` map entries from the front of `d`: each key, then its value
/// with its type.
pub open spec fn read_entries(d: Seq<u8>, n: nat, fuel: nat) -> Option<(Seq<(Seq<char>, PropertyModel)>, Seq<u8>)>
    decreases fuel, 2nat,
{
    if fuel == 0 {
        None
    } else if n == 0 {
        Some((seq![], d))
    } else {
        match read_string(d) {
            None => None,
            Some((k, r)) => match read_typed_value(r, (fuel - 1) as nat) {
                None => None,
                Some((v, r2)) => match read_entries(r2, (n - 1) as nat, (fuel - 1) as nat) {
                    None => None,
                    Some((es, r3)) => Some((seq![(k, v)] + es, r3)),
                },
            },
        }
    }
}

/// How deep reading a value nests: enough fuel to read it back.
pub open spec fn depth(m: PropertyModel) -> nat
    decreases m,
{
    match m {
        PropertyModel::List(items) => 1 + items_depth(items),
        PropertyModel::PropMap(es) => 1 + entries_depth(es),
        _ => 1,
    }
}

/// Enough fuel to read the items back.
pub open spec fn items_depth(s: Seq<PropertyModel>) -> nat
    decreases s,
{
    if s.len() == 0 {
        1
    } else {
        let a = depth(s[0]);
        let b = items_depth(s.drop_first());
        1 + if a >= b {
            a
        } else {
            b
        }
    }
}

/// Enough fuel to read the entries back.
pub open spec fn entries_depth(s: Seq<(Seq<char>, PropertyModel)>) -> nat
    decreases s,
{
    if s.len() == 0 {
        1
    } else {
        let a = depth(s[0].1);
        let b = entries_depth(s.drop_first());
        1 + if a >= b {
            a
        } else {
            b
        }
    }
}

/// Whether every UUID in the value has its 16 bytes.
pub open spec fn uuids_sized(m: PropertyModel) -> bool
    decreases m,
{
    match m {
        PropertyModel::Uuid(u) => u.len() == 16,
        PropertyModel::List(items) => forall|i: int| 0 <= i < items.len() ==> uuids_sized(#[trigger] items[i]),
        PropertyModel::PropMap(es) => forall|i: int| 0 <= i < es.len() ==> uuids_sized(#[trigger] es[i].1),
        _ => true,
    }
}

/// The type number written before an item of a list whose group number is
/// `g`: the item's own type when `g` is 0, nothing otherwise.
pub open spec fn item_prefix(g: u16, m: PropertyModel) -> Seq<u8> {
    if g == 0 {
        u16_le(tag_code(prop_tag(m)))
    } else {
        seq![]
    }
}

/// The items' bytes are the first item's bytes followed by the rest's.
proof fn lemma_items_front(s: Seq<PropertyModel>, g: u16)
    requires
        s.len() > 0,
        items_bytes(s, g) is Ok,
    ensures
        untyped_bytes(s[0]) is Ok,
        items_bytes(s.drop_first(), g) is Ok,
        items_bytes(s, g)->Ok_0 == item_prefix(g, s[0]) + untyped_bytes(s[0])->Ok_0 + items_bytes(
            s.drop_first(),
            g,
        )->Ok_0,
    decreases s.len(),
{
    if s.len() == 1 {
        assert(s.drop_last() =~= Seq::<PropertyModel>::empty());
        assert(s.drop_first() =~= Seq::<PropertyModel>::empty());
        assert(s[s.len() - 1] == s[0]);
        assert(items_bytes(s, g)->Ok_0 =~= item_prefix(g, s[0]) + untyped_bytes(s[0])->Ok_0
            + Seq::<u8>::empty());
    } else {
        let p = s.drop_last();
        lemma_items_front(p, g);
        assert(p[0] == s[0]);
        assert(s.drop_first().drop_last() =~= p.drop_first());
        assert(s.drop_first()[s.drop_first().len() - 1] == s[s.len() - 1]);
        let last = s[s.len() - 1];
        assert(items_bytes(s.drop_first(), g)->Ok_0 == items_bytes(p.drop_first(), g)->Ok_0
            + item_prefix(g, last) + untyped_bytes(last)->Ok_0);
        assert(items_bytes(s, g)->Ok_0 =~= item_prefix(g, s[0]) + untyped_bytes(s[0])->Ok_0
            + items_bytes(s.drop_first(), g)->Ok_0);
    }
}

/// The entries' bytes are the first entry's bytes followed by the rest's.
proof fn lemma_entries_front(s: Seq<(Seq<char>, PropertyModel)>)
    requires
        s.len() > 0,
        entries_bytes(s) is Ok,
    ensures
        string_bytes(s[0].0) is Ok,
        untyped_bytes(s[0].1) is Ok,
        entries_bytes(s.drop_first()) is Ok,
        entries_bytes(s)->Ok_0 == string_bytes(s[0].0)->Ok_0 + u16_le(tag_code(prop_tag(s[0].1)))
            + untyped_bytes(s[0].1)->Ok_0 + entries_bytes(s.drop_first())->Ok_0,
    decreases s.len(),
{
    if s.len() == 1 {
        assert(s.drop_last() =~= Seq::<(Seq<char>, PropertyModel)>::empty());
        assert(s.drop_first() =~= Seq::<(Seq<char>, PropertyModel)>::empty());
        assert(s[s.len() - 1] == s[0]);
        assert(entries_bytes(s)->Ok_0 =~= string_bytes(s[0].0)->Ok_0 + u16_le(
            tag_code(prop_tag(s[0].1)),
        ) + untyped_bytes(s[0].1)->Ok_0 + Seq::<u8>::empty());
    } else {
        let p = s.drop_last();
        lemma_entries_front(p);
        assert(p[0] == s[0]);
        assert(s.drop_first().drop_last() =~= p.drop_first());
        assert(s.drop_first()[s.drop_first().len() - 1] == s[s.len() - 1]);
        let last = s[s.len() - 1];
        assert(entries_bytes(s.drop_first())->Ok_0 == entries_bytes(p.drop_first())->Ok_0
            + string_bytes(last.0)->Ok_0 + u16_le(tag_code(prop_tag(last.1)))
            + untyped_bytes(last.1)->Ok_0);
        assert(entries_bytes(s)->Ok_0 =~= string_bytes(s[0].0)->Ok_0 + u16_le(
            tag_code(prop_tag(s[0].1)),
        ) + untyped_bytes(s[0].1)->Ok_0 + entries_bytes(s.drop_first())->Ok_0);
    }
}

/// A written string reads back as itself, leaving what follows it.
pub proof fn lemma_string_roundtrip(s: Seq<char>, t: Seq<u8>)
    requires
        string_bytes(s) is Ok,
    ensures
        read_string(string_bytes(s)->Ok_0 + t) == Some((s, t)),
{
    let b = encode_utf8(s);
    let n = b.len() as u16;
    let d = u16_le(n) + b + t;
    assert(d.subrange(0, 2) =~= u16_le(n));
    lemma_u16_at(d, 0, n);
    assert(d.subrange(2, 2 + n as int) =~= b);
    assert(d.skip(2 + n as int) =~= t);
    encode_utf8_valid_utf8(s);
    encode_utf8_decode_utf8(s);
    assert(string_bytes(s)->Ok_0 + t =~= d);
}

/// A `u32` written in front of `t` reads back as itself.
proof fn lemma_u32_front(x: u32, t: Seq<u8>)
    ensures
        (u32_le(x) + t).len() == 4 + t.len(),
        u32_at(u32_le(x) + t, 0) == x,
        (u32_le(x) + t).skip(4) == t,
{
    let d = u32_le(x) + t;
    assert(d.subrange(0, 4) =~= u32_le(x));
    lemma_u32_at(d, 0, x);
    assert(d.skip(4) =~= t);
}

/// Two `u32`s written in front of `t` read back as themselves.
proof fn lemma_u32_pair(x: u32, y: u32, t: Seq<u8>)
    ensures
        (u32_le(x) + u32_le(y) + t).len() == 8 + t.len(),
        u32_at(u32_le(x) + u32_le(y) + t, 0) == x,
        u32_at(u32_le(x) + u32_le(y) + t, 4) == y,
        (u32_le(x) + u32_le(y) + t).skip(8) == t,
{
    let d = u32_le(x) + u32_le(y) + t;
    assert(d.subrange(0, 4) =~= u32_le(x));
    assert(d.subrange(4, 8) =~= u32_le(y));
    lemma_u32_at(d, 0, x);
    lemma_u32_at(d, 4, y);
    assert(d.skip(8) =~= t);
}

/// What the writer appends for a value, without its type, reads back as
/// that value, whatever follows it: every field comes back in its place.
#[verifier::spinoff_prover]
#[verifier::rlimit(80)]
pub proof fn lemma_untyped_roundtrip(m: PropertyModel, t: Seq<u8>, fuel: nat)
    requires
        untyped_bytes(m) is Ok,
        uuids_sized(m),
        fuel >= depth(m),
    ensures
        read_untyped(prop_tag(m), untyped_bytes(m)->Ok_0 + t, fuel) == Some((m, t)),
    decreases m, 1nat,
{
    let b = untyped_bytes(m)->Ok_0;
    let d = b + t;
    match m {
        PropertyModel::Bool(x) => {
            assert(d[0] == b[0]);
            assert(d.skip(1) =~= t);
        },
        PropertyModel::I8(x) => {
            lemma_signed_casts(x, 0, 0, 0);
            assert(d[0] == b[0]);
            assert(d.skip(1) =~= t);
        },
        PropertyModel::U8(x) => {
            assert(d[0] == b[0]);
            assert(d.skip(1) =~= t);
        },
        PropertyModel::I16(x) => {
            lemma_signed_casts(0, x, 0, 0);
            assert(d.subrange(0, 2) =~= u16_le(x as u16));
            lemma_u16_at(d, 0, x as u16);
            assert(d.skip(2) =~= t);
        },
        PropertyModel::U16(x) => {
            assert(d.subrange(0, 2) =~= u16_le(x));
            lemma_u16_at(d, 0, x);
            assert(d.skip(2) =~= t);
        },
        PropertyModel::I32(x) => {
            lemma_signed_casts(0, 0, x, 0);
            lemma_u32_front(x as u32, t);
        },
        PropertyModel::U32(x) => {
            lemma_u32_front(x, t);
        },
        PropertyModel::FixedPoint(x) => {
            lemma_signed_casts(0, 0, x, 0);
            lemma_u32_front(x as u32, t);
        },
        PropertyModel::F32(x) => {
            lemma_u32_front(x, t);
        },
        PropertyModel::I64(x) => {
            lemma_signed_casts(0, 0, 0, x);
            assert(d.subrange(0, 8) =~= u64_le(x as u64));
            lemma_u64_at(d, 0, x as u64);
            assert(d.skip(8) =~= t);
        },
        PropertyModel::U64(x) => {
            assert(d.subrange(0, 8) =~= u64_le(x));
            lemma_u64_at(d, 0, x);
            assert(d.skip(8) =~= t);
        },
        PropertyModel::F64(x) => {
            assert(d.subrange(0, 8) =~= u64_le(x));
            lemma_u64_at(d, 0, x);
            assert(d.skip(8) =~= t);
        },
        PropertyModel::Str(s) => {
            lemma_string_roundtrip(s, t);
        },
        PropertyModel::Point(x, y) => {
            lemma_signed_casts(0, 0, x, 0);
            lemma_signed_casts(0, 0, y, 0);
            lemma_u32_pair(x as u32, y as u32, t);
        },
        PropertyModel::Size(w, h) => {
            lemma_signed_casts(0, 0, w, 0);
            lemma_signed_casts(0, 0, h, 0);
            lemma_u32_pair(w as u32, h as u32, t);
        },
        PropertyModel::Rect(x, y, w, h) => {
            lemma_signed_casts(0, 0, x, 0);
            lemma_signed_casts(0, 0, y, 0);
            lemma_signed_casts(0, 0, w, 0);
            lemma_signed_casts(0, 0, h, 0);
            assert(d.subrange(0, 4) =~= u32_le(x as u32));
            assert(d.subrange(4, 8) =~= u32_le(y as u32));
            assert(d.subrange(8, 12) =~= u32_le(w as u32));
            assert(d.subrange(12, 16) =~= u32_le(h as u32));
            lemma_u32_at(d, 0, x as u32);
            lemma_u32_at(d, 4, y as u32);
            lemma_u32_at(d, 8, w as u32);
            lemma_u32_at(d, 12, h as u32);
            assert(d.skip(16) =~= t);
        },
        PropertyModel::Uuid(u) => {
            assert(d.take(16) =~= u);
            assert(d.skip(16) =~= t);
        },
        PropertyModel::List(items) => {
            let g = group_code(items);
            let ib = items_bytes(items, g)->Ok_0;
            let n = items.len() as u32;
            assert(d =~= u32_le(n) + u16_le(g) + (ib + t));
            assert(d.subrange(0, 4) =~= u32_le(n));
            assert(d.subrange(4, 6) =~= u16_le(g));
            lemma_u32_at(d, 0, n);
            lemma_u16_at(d, 4, g);
            assert(d.skip(6) =~= ib + t);
            if g != 0 {
                assert(items.len() > 0);
                assert forall|i: int| 0 <= i < items.len() implies tag_code(prop_tag(#[trigger] items[i]))
                    == g by {}
            }
            assert(decreases_to!(m => items));
            lemma_items_roundtrip(items, g, t, (fuel - 1) as nat);
        },
        PropertyModel::PropMap(es) => {
            let eb = entries_bytes(es)->Ok_0;
            let n = es.len() as u32;
            assert(d =~= u32_le(n) + (eb + t));
            lemma_u32_front(n, eb + t);
            assert(decreases_to!(m => es));
            lemma_entries_roundtrip(es, t, (fuel - 1) as nat);
        },
    }
}

/// What the writer appends for a list's items reads back as those items:
/// with the group number 0 each item with its own type, otherwise each of
/// the group's type.
#[verifier::spinoff_prover]
#[verifier::rlimit(80)]
pub proof fn lemma_items_roundtrip(items: Seq<PropertyModel>, g: u16, t: Seq<u8>, fuel: nat)
    requires
        items_bytes(items, g) is Ok,
        forall|i: int| 0 <= i < items.len() ==> uuids_sized(#[trigger] items[i]),
        g == 0 || forall|i: int| 0 <= i < items.len() ==> tag_code(prop_tag(#[trigger] items[i])) == g,
        fuel >= items_depth(items),
    ensures
        read_items(items_bytes(items, g)->Ok_0 + t, items.len(), g, fuel) == Some((items, t)),
    decreases items, 0nat,
{
    if items.len() == 0 {
        assert(items_bytes(items, g)->Ok_0 + t =~= t);
        assert(items =~= Seq::<PropertyModel>::empty());
    } else {
        lemma_items_front(items, g);
        let x = items[0];
        let rest = items.drop_first();
        let pb = untyped_bytes(x)->Ok_0;
        let rb = items_bytes(rest, g)->Ok_0;
        let d = items_bytes(items, g)->Ok_0 + t;
        assert(decreases_to!(items => x));
        lemma_untyped_roundtrip(x, rb + t, (fuel - 1) as nat);
        lemma_tag_code_roundtrip(prop_tag(x), 0);
        if g == 0 {
            let tc = tag_code(prop_tag(x));
            assert(d =~= u16_le(tc) + (pb + (rb + t)));
            assert(d.subrange(0, 2) =~= u16_le(tc));
            lemma_u16_at(d, 0, tc);
            assert(d.skip(2) =~= pb + (rb + t));
            assert(read_typed_value(d, (fuel - 1) as nat) == Some((x, rb + t)));
        } else {
            assert(tag_code(prop_tag(items[0])) == g);
            assert(d =~= pb + (rb + t));
            assert(tag_of_code(g) == Some(prop_tag(x)));
            assert(read_untyped(prop_tag(x), d, (fuel - 1) as nat) == Some((x, rb + t)));
        }
        assert forall|i: int| 0 <= i < rest.len() implies uuids_sized(#[trigger] rest[i]) by {
            assert(rest[i] == items[i + 1]);
        }
        if g != 0 {
            assert forall|i: int| 0 <= i < rest.len() implies tag_code(prop_tag(#[trigger] rest[i])) == g by {
                assert(rest[i] == items[i + 1]);
            }
        }
        lemma_items_roundtrip(rest, g, t, (fuel - 1) as nat);
        assert(rest.len() == items.len() - 1);
        assert(read_items(rb + t, (items.len() - 1) as nat, g, (fuel - 1) as nat) == Some((rest, t)));
        assert(seq![x] + rest =~= items);
    }
}

/// What the writer appends for a map's entries reads back as those
/// entries: each key, and each value with its type.
#[verifier::spinoff_prover]
#[verifier::rlimit(80)]
pub proof fn lemma_entries_roundtrip(es: Seq<(Seq<char>, PropertyModel)>, t: Seq<u8>, fuel: nat)
    requires
        entries_bytes(es) is Ok,
        forall|i: int| 0 <= i < es.len() ==> uuids_sized(#[trigger] es[i].1),
        fuel >= entries_depth(es),
    ensures
        read_entries(entries_bytes(es)->Ok_0 + t, es.len(), fuel) == Some((es, t)),
    decreases es, 0nat,
{
    if es.len() == 0 {
        assert(entries_bytes(es)->Ok_0 + t =~= t);
        assert(es =~= Seq::<(Seq<char>, PropertyModel)>::empty());
    } else {
        lemma_entries_front(es);
        let e = es[0];
        let rest = es.drop_first();
        let kb = string_bytes(e.0)->Ok_0;
        let vb = untyped_bytes(e.1)->Ok_0;
        let rb = entries_bytes(rest)->Ok_0;
        let tc = tag_code(prop_tag(e.1));
        let d = entries_bytes(es)->Ok_0 + t;
        assert(d =~= kb + (u16_le(tc) + vb + rb + t));
        lemma_string_roundtrip(e.0, u16_le(tc) + vb + rb + t);
        let r = u16_le(tc) + vb + rb + t;
        assert(r.subrange(0, 2) =~= u16_le(tc));
        lemma_u16_at(r, 0, tc);
        assert(r.skip(2) =~= vb + (rb + t));
        lemma_tag_code_roundtrip(prop_tag(e.1), 0);
        assert(decreases_to!(es => es[0]));
        assert(decreases_to!(es[0] => es[0].1));
        lemma_untyped_roundtrip(e.1, rb + t, (fuel - 1) as nat);
        assert(read_string(d) == Some((e.0, r)));
        assert(read_typed_value(r, (fuel - 1) as nat) == Some((e.1, rb + t)));
        assert forall|i: int| 0 <= i < rest.len() implies uuids_sized(#[trigger] rest[i].1) by {
            assert(rest[i] == es[i + 1]);
        }
        lemma_entries_roundtrip(rest, t, (fuel - 1) as nat);
        assert(rest.len() == es.len() - 1);
        assert(read_entries(rb + t, (es.len() - 1) as nat, (fuel - 1) as nat) == Some((rest, t)));
        assert(seq![e] + rest =~= es);
    }
}

/// What the writer appends for a value with its type reads back as that
/// value: the type number, then the value.
pub proof fn lemma_typed_roundtrip(m: PropertyModel, t: Seq<u8>)
    requires
        typed_bytes(m) is Ok,
        uuids_sized(m),
    ensures
        read_typed_value(typed_bytes(m)->Ok_0 + t, depth(m)) == Some((m, t)),
{
    let b = untyped_bytes(m)->Ok_0;
    let tc = tag_code(prop_tag(m));
    let d = typed_bytes(m)->Ok_0 + t;
    assert(d =~= u16_le(tc) + (b + t));
    assert(d.subrange(0, 2) =~= u16_le(tc));
    lemma_u16_at(d, 0, tc);
    assert(d.skip(2) =~= b + t);
    lemma_tag_code_roundtrip(prop_tag(m), 0);
    lemma_untyped_roundtrip(m, t, depth(m));
}

} // verus!
