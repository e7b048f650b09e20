//! User data properties of Aseprite elements.
use vstd::prelude::*;
use vstd::utf8::encode_utf8;

use crate::bytes_le::{put_slice, put_u16_le, put_u32_le, put_u64_le, put_u8, u16_le, u32_le, u64_le};
use crate::formats::aseprite::{FixedI16, Point32, Rect32, Size32};
use crate::strings::{
    compare_strings, lemma_lex_irreflexive, lemma_lex_total, lemma_lex_transitive,
    lemma_utf8_injective, lex_lt, KeyOrder,
};

pub mod reading;
pub mod serde;

verus! {

/// The type tag of a property value, as stored in the binary format.
#[derive(Debug, Clone, Copy, PartialEq, Eq, Structural)]
pub enum PropertyTag {
    Bool,
    I8,
    U8,
    I16,
    U16,
    I32,
    U32,
    I64,
    U64,
    F32,
    F64,
    FixedPoint,
    String,
    Point,
    Size,
    Rect,
    Vec,
    PropMap,
    Uuid,
}

/// A number that names no property tag.
#[derive(Debug, Clone, Copy, PartialEq, Eq, Structural)]
pub struct InvalidPropertyTag(pub u16);

/// The number that stands for `t` in the binary format.
pub open spec fn tag_code(t: PropertyTag) -> u16 {
    match t {
        PropertyTag::Bool => 1,
        PropertyTag::I8 => 2,
        PropertyTag::U8 => 3,
        PropertyTag::I16 => 4,
        PropertyTag::U16 => 5,
        PropertyTag::I32 => 6,
        PropertyTag::U32 => 7,
        PropertyTag::I64 => 8,
        PropertyTag::U64 => 9,
        PropertyTag::FixedPoint => 10,
        PropertyTag::F32 => 11,
        PropertyTag::F64 => 12,
        PropertyTag::String => 13,
        PropertyTag::Point => 14,
        PropertyTag::Size => 15,
        PropertyTag::Rect => 16,
        PropertyTag::Vec => 17,
        PropertyTag::PropMap => 18,
        PropertyTag::Uuid => 19,
    }
}

/// The tag that the number `id` stands for, if any: the numbers 1 to 19.
pub open spec fn tag_of_code(id: u16) -> Option<PropertyTag> {
    if id == 1 {
        Some(PropertyTag::Bool)
    } else if id == 2 {
        Some(PropertyTag::I8)
    } else if id == 3 {
        Some(PropertyTag::U8)
    } else if id == 4 {
        Some(PropertyTag::I16)
    } else if id == 5 {
        Some(PropertyTag::U16)
    } else if id == 6 {
        Some(PropertyTag::I32)
    } else if id == 7 {
        Some(PropertyTag::U32)
    } else if id == 8 {
        Some(PropertyTag::I64)
    } else if id == 9 {
        Some(PropertyTag::U64)
    } else if id == 10 {
        Some(PropertyTag::FixedPoint)
    } else if id == 11 {
        Some(PropertyTag::F32)
    } else if id == 12 {
        Some(PropertyTag::F64)
    } else if id == 13 {
        Some(PropertyTag::String)
    } else if id == 14 {
        Some(PropertyTag::Point)
    } else if id == 15 {
        Some(PropertyTag::Size)
    } else if id == 16 {
        Some(PropertyTag::Rect)
    } else if id == 17 {
        Some(PropertyTag::Vec)
    } else if id == 18 {
        Some(PropertyTag::PropMap)
    } else if id == 19 {
        Some(PropertyTag::Uuid)
    } else {
        None
    }
}

impl PropertyTag {
    /// The tag that `id` stands for; an error for any number outside 1 to 19.
    pub fn from_u16(id: u16) -> (r: Result<PropertyTag, InvalidPropertyTag>)
        ensures
            r matches Ok(t) ==> tag_of_code(id) == Some(t),
            r matches Err(e) ==> tag_of_code(id) is None && e.0 == id,
    {
        match id {
            1 => Ok(PropertyTag::Bool),
            2 => Ok(PropertyTag::I8),
            3 => Ok(PropertyTag::U8),
            4 => Ok(PropertyTag::I16),
            5 => Ok(PropertyTag::U16),
            6 => Ok(PropertyTag::I32),
            7 => Ok(PropertyTag::U32),
            8 => Ok(PropertyTag::I64),
            9 => Ok(PropertyTag::U64),
            10 => Ok(PropertyTag::FixedPoint),
            11 => Ok(PropertyTag::F32),
            12 => Ok(PropertyTag::F64),
            13 => Ok(PropertyTag::String),
            14 => Ok(PropertyTag::Point),
            15 => Ok(PropertyTag::Size),
            16 => Ok(PropertyTag::Rect),
            17 => Ok(PropertyTag::Vec),
            18 => Ok(PropertyTag::PropMap),
            19 => Ok(PropertyTag::Uuid),
            _ => Err(InvalidPropertyTag(id)),
        }
    }

    /// The number that stands for this tag.
    pub fn to_u16(self) -> (r: u16)
        ensures
            r == tag_code(self),
    {
        match self {
            PropertyTag::Bool => 1,
            PropertyTag::I8 => 2,
            PropertyTag::U8 => 3,
            PropertyTag::I16 => 4,
            PropertyTag::U16 => 5,
            PropertyTag::I32 => 6,
            PropertyTag::U32 => 7,
            PropertyTag::I64 => 8,
            PropertyTag::U64 => 9,
            PropertyTag::FixedPoint => 10,
            PropertyTag::F32 => 11,
            PropertyTag::F64 => 12,
            PropertyTag::String => 13,
            PropertyTag::Point => 14,
            PropertyTag::Size => 15,
            PropertyTag::Rect => 16,
            PropertyTag::Vec => 17,
            PropertyTag::PropMap => 18,
            PropertyTag::Uuid => 19,
        }
    }
}

/// Reading back the number of a tag gives the tag; and a number that reads
/// as a tag is that tag's number. In particular no tag has the number 0.
pub proof fn lemma_tag_code_roundtrip(t: PropertyTag, id: u16)
    ensures
        tag_of_code(tag_code(t)) == Some(t),
        tag_code(t) != 0,
        tag_of_code(id) matches Some(u) ==> tag_code(u) == id,
{
}

/// A user data property value. Floating-point values are held by their bits.
#[derive(Debug)]
pub enum Property {
    Bool(bool),
    I8(i8),
    U8(u8),
    I16(i16),
    U16(u16),
    I32(i32),
    U32(u32),
    I64(i64),
    U64(u64),
    F32(u32),
    F64(u64),
    FixedPoint(FixedI16),
    String(String),
    Point(Point32),
    Size(Size32),
    Rect(Rect32),
    Vec(Vec<Property>),
    PropMap(PropertyMap),
    Uuid([u8; 16]),
}

/// A collection of user-defined properties: entries with distinct keys, in
/// the order of their keys' UTF-8 bytes.
#[derive(Debug)]
pub struct PropertyMap {
    entries: Vec<(String, Property)>,
}

/// The model of a [`Property`].
pub enum PropertyModel {
    Bool(bool),
    I8(i8),
    U8(u8),
    I16(i16),
    U16(u16),
    I32(i32),
    U32(u32),
    I64(i64),
    U64(u64),
    F32(u32),
    F64(u64),
    /// The raw 16.16 value.
    FixedPoint(i32),
    Str(Seq<char>),
    Point(i32, i32),
    Size(i32, i32),
    /// Position, then size.
    Rect(i32, i32, i32, i32),
    List(Seq<PropertyModel>),
    /// The entries, in key order.
    PropMap(Seq<(Seq<char>, PropertyModel)>),
    Uuid(Seq<u8>),
}

/// The model of a property.
pub closed spec fn property_model(p: Property) -> PropertyModel
    decreases p,
{
    match p {
        Property::Bool(b) => PropertyModel::Bool(b),
        Property::I8(x) => PropertyModel::I8(x),
        Property::U8(x) => PropertyModel::U8(x),
        Property::I16(x) => PropertyModel::I16(x),
        Property::U16(x) => PropertyModel::U16(x),
        Property::I32(x) => PropertyModel::I32(x),
        Property::U32(x) => PropertyModel::U32(x),
        Property::I64(x) => PropertyModel::I64(x),
        Property::U64(x) => PropertyModel::U64(x),
        Property::F32(x) => PropertyModel::F32(x),
        Property::F64(x) => PropertyModel::F64(x),
        Property::FixedPoint(f) => PropertyModel::FixedPoint(f@),
        Property::String(s) => PropertyModel::Str(s@),
        Property::Point(pt) => PropertyModel::Point(pt@.0, pt@.1),
        Property::Size(sz) => PropertyModel::Size(sz@.0, sz@.1),
        Property::Rect(r) => PropertyModel::Rect(r@.0@.0, r@.0@.1, r@.1@.0, r@.1@.1),
        Property::Vec(items) => PropertyModel::List(
            Seq::new(
                items@.len(),
                |i: int|
                    if 0 <= i < items@.len() {
                        property_model(items@[i])
                    } else {
                        PropertyModel::Bool(false)
                    },
            ),
        ),
        Property::PropMap(m) => PropertyModel::PropMap(
            Seq::new(
                m.entries@.len(),
                |i: int|
                    if 0 <= i < m.entries@.len() {
                        (m.entries@[i].0@, property_model(m.entries@[i].1))
                    } else {
                        (Seq::<char>::empty(), PropertyModel::Bool(false))
                    },
            ),
        ),
        Property::Uuid(u) => PropertyModel::Uuid(u@),
    }
}

impl View for Property {
    type V = PropertyModel;

    open spec fn view(&self) -> PropertyModel {
        property_model(*self)
    }
}

impl View for PropertyMap {
    /// The entries, in key order.
    type V = Seq<(Seq<char>, PropertyModel)>;

    closed spec fn view(&self) -> Seq<(Seq<char>, PropertyModel)> {
        Seq::new(self.entries@.len(), |i: int| (self.entries@[i].0@, self.entries@[i].1@))
    }
}

/// Whether the entries' keys are in strictly increasing order of their
/// UTF-8 bytes, so that no key occurs twice.
pub open spec fn keys_sorted<V>(es: Seq<(Seq<char>, V)>) -> bool {
    forall|i: int, j: int|
        0 <= i < j < es.len() ==> lex_lt(encode_utf8(#[trigger] es[i].0), encode_utf8(
            #[trigger] es[j].0,
        ))
}

/// The value of `key` among the entries, if it has one.
pub open spec fn lookup<V>(es: Seq<(Seq<char>, V)>, key: Seq<char>) -> Option<V> {
    if exists|i: int| 0 <= i < es.len() && (#[trigger] es[i]).0 == key {
        Some(es[choose|i: int| 0 <= i < es.len() && (#[trigger] es[i]).0 == key].1)
    } else {
        None
    }
}

impl PropertyMap {
    /// The well-formedness of a property map: its keys are in increasing order.
    pub closed spec fn wf(&self) -> bool {
        keys_sorted(self@)
    }

    /// An empty property map.
    pub fn new() -> (m: Self)
        ensures
            m.wf(),
            m@ == Seq::<(Seq<char>, PropertyModel)>::empty(),
    {
        let m = PropertyMap { entries: Vec::new() };
        assert(m@ =~= Seq::<(Seq<char>, PropertyModel)>::empty());
        m
    }

    /// The number of entries.
    pub fn len(&self) -> (n: usize)
        ensures
            n == self@.len(),
    {
        self.entries.len()
    }

    /// The entries, in key order.
    pub fn properties(&self) -> (es: &Vec<(String, Property)>)
        ensures
            es@.len() == self@.len(),
            forall|i: int|
                0 <= i < es@.len() ==> (#[trigger] es@[i]).0@ == self@[i].0 && es@[i].1@
                    == self@[i].1,
    {
        &self.entries
    }

    /// Sets `key` to `value`: replaces the value of an entry with that key,
    /// or adds an entry in key order.
    pub fn set(&mut self, key: String, value: Property)
        requires
            old(self).wf(),
        ensures
            final(self).wf(),
            forall|k: Seq<char>|
                #[trigger] lookup(final(self)@, k) == if k == key@ {
                    Some(value@)
                } else {
                    lookup(old(self)@, k)
                },
    {
        let ghost old_view = self@;
        let n = self.entries.len();
        let mut i: usize = 0;
        let mut found = false;
        while i < n
            invariant_except_break
                !found,
                i <= n,
                n == self.entries@.len(),
                self@ == old_view,
                forall|j: int|
                    0 <= j < i ==> lex_lt(encode_utf8(#[trigger] old_view[j].0), encode_utf8(key@)),
            ensures
                i <= n,
                n == self.entries@.len(),
                self@ == old_view,
                forall|j: int|
                    0 <= j < i ==> lex_lt(encode_utf8(#[trigger] old_view[j].0), encode_utf8(key@)),
                found ==> i < n && old_view[i as int].0 == key@,
                !found && i < n ==> lex_lt(encode_utf8(key@), encode_utf8(old_view[i as int].0)),
            decreases n - i,
        {
            assert(old_view[i as int].0 == self.entries@[i as int].0@);
            match compare_strings(&self.entries[i].0, &key) {
                KeyOrder::Less => {
                    i = i + 1;
                },
                KeyOrder::Equal => {
                    assert(old_view[i as int].0 == key@);
                    found = true;
                    break;
                },
                KeyOrder::Greater => {
                    break;
                },
            }
        }
        let ghost value_model = value@;
        let ghost key_model = key@;
        if found {
            self.entries.set(i, (key, value));
            proof {
                assert(self@ =~= old_view.update(i as int, (key_model, value_model)));
                assert(keys_sorted(self@));
                lemma_lookup_update(old_view, i as int, key_model, value_model);
            }
        } else {
            self.entries.insert(i, (key, value));
            proof {
                assert(self@ =~= old_view.insert(i as int, (key_model, value_model)));
                assert forall|a: int, b: int|
                    0 <= a < b < self@.len() implies lex_lt(
                    encode_utf8(#[trigger] self@[a].0),
                    encode_utf8(#[trigger] self@[b].0),
                ) by {
                    if a < i && b == i {
                    } else if a < i && b > i {
                        assert(self@[a] == old_view[a]);
                        assert(self@[b] == old_view[b - 1]);
                        if i < n {
                            assert(lex_lt(encode_utf8(key_model), encode_utf8(old_view[i as int].0)));
                        }
                        if b - 1 > i {
                            lemma_lex_transitive(
                                encode_utf8(key_model),
                                encode_utf8(old_view[i as int].0),
                                encode_utf8(old_view[b - 1].0),
                            );
                        }
                        lemma_lex_transitive(
                            encode_utf8(old_view[a].0),
                            encode_utf8(key_model),
                            encode_utf8(old_view[b - 1].0),
                        );
                    } else if a == i {
                        assert(self@[b] == old_view[b - 1]);
                        if b - 1 > i {
                            lemma_lex_transitive(
                                encode_utf8(key_model),
                                encode_utf8(old_view[i as int].0),
                                encode_utf8(old_view[b - 1].0),
                            );
                        }
                    } else if a > i {
                        assert(self@[a] == old_view[a - 1]);
                        assert(self@[b] == old_view[b - 1]);
                    } else {
                        assert(self@[a] == old_view[a]);
                        assert(self@[b] == old_view[b]);
                    }
                }
                lemma_lookup_insert(old_view, i as int, key_model, value_model);
            }
        }
    }

}

/// The entries with their keys as characters.
pub open spec fn keyed<V>(es: Seq<(String, V)>) -> Seq<(Seq<char>, V)> {
    Seq::new(es.len(), |i: int| (es[i].0@, es[i].1))
}

/// The entries with `g` applied to each value.
pub open spec fn map_entry_values<V, W>(es: Seq<(Seq<char>, V)>, g: spec_fn(V) -> W) -> Seq<
    (Seq<char>, W),
> {
    Seq::new(es.len(), |i: int| (es[i].0, g(es[i].1)))
}

/// Applying a function to the values keeps the keys' order, and looking a
/// key up gives the function of what it gave before.
pub proof fn lemma_lookup_map_values<V, W>(es: Seq<(Seq<char>, V)>, g: spec_fn(V) -> W)
    requires
        keys_sorted(es),
    ensures
        keys_sorted(map_entry_values(es, g)),
        forall|k: Seq<char>|
            #[trigger] lookup(map_entry_values(es, g), k) == match lookup(es, k) {
                Some(v) => Some(g(v)),
                None => None,
            },
{
    let ms = map_entry_values(es, g);
    assert forall|i: int, j: int|
        0 <= i < j < ms.len() implies lex_lt(
        encode_utf8(#[trigger] ms[i].0),
        encode_utf8(#[trigger] ms[j].0),
    ) by {
        assert(ms[i].0 == es[i].0);
        assert(ms[j].0 == es[j].0);
    }
    assert forall|k: Seq<char>| #[trigger]
        lookup(ms, k) == match lookup(es, k) {
            Some(v) => Some(g(v)),
            None => None,
        } by {
        if exists|i: int| 0 <= i < es.len() && (#[trigger] es[i]).0 == k {
            let c = choose|i: int| 0 <= i < es.len() && (#[trigger] es[i]).0 == k;
            assert(ms[c].0 == k);
            let d = choose|i: int| 0 <= i < ms.len() && (#[trigger] ms[i]).0 == k;
            assert(ms[d].0 == es[d].0);
            lemma_unique_key(es, c, d);
        } else {
            assert forall|i: int| 0 <= i < ms.len() implies (#[trigger] ms[i]).0 != k by {
                assert(ms[i].0 == es[i].0);
            }
        }
    }
}

/// Sets `key` to `value` among entries kept in key order: replaces the
/// value of an entry with that key, or adds an entry in key order.
pub fn set_sorted<V>(es: &mut Vec<(String, V)>, key: String, value: V)
    requires
        keys_sorted(keyed(old(es)@)),
    ensures
        keys_sorted(keyed(final(es)@)),
        forall|k: Seq<char>|
            #[trigger] lookup(keyed(final(es)@), k) == if k == key@ {
                Some(value)
            } else {
                lookup(keyed(old(es)@), k)
            },
{
    let ghost old_view = keyed(es@);
    let n = es.len();
    let mut i: usize = 0;
    let mut found = false;
    while i < n
        invariant_except_break
            !found,
            i <= n,
            n == es@.len(),
            keyed(es@) == old_view,
            forall|j: int|
                0 <= j < i ==> lex_lt(encode_utf8(#[trigger] old_view[j].0), encode_utf8(key@)),
        ensures
            i <= n,
            n == es@.len(),
            keyed(es@) == old_view,
            forall|j: int|
                0 <= j < i ==> lex_lt(encode_utf8(#[trigger] old_view[j].0), encode_utf8(key@)),
            found ==> i < n && old_view[i as int].0 == key@,
            !found && i < n ==> lex_lt(encode_utf8(key@), encode_utf8(old_view[i as int].0)),
        decreases n - i,
    {
        assert(old_view[i as int].0 == es@[i as int].0@);
        match compare_strings(&es[i].0, &key) {
            KeyOrder::Less => {
                i = i + 1;
            },
            KeyOrder::Equal => {
                found = true;
                break;
            },
            KeyOrder::Greater => {
                break;
            },
        }
    }
    let ghost key_model = key@;
    let ghost value_model = value;
    if found {
        es.set(i, (key, value));
        proof {
            assert(keyed(es@) =~= old_view.update(i as int, (key_model, value_model)));
            lemma_lookup_update(old_view, i as int, key_model, value_model);
        }
    } else {
        es.insert(i, (key, value));
        proof {
            let nv = keyed(es@);
            assert(nv =~= old_view.insert(i as int, (key_model, value_model)));
            assert forall|a: int, b: int|
                0 <= a < b < nv.len() implies lex_lt(
                encode_utf8(#[trigger] nv[a].0),
                encode_utf8(#[trigger] nv[b].0),
            ) by {
                if a < i && b == i {
                } else if a < i && b > i {
                    assert(nv[a] == old_view[a]);
                    assert(nv[b] == old_view[b - 1]);
                    if b - 1 > i {
                        lemma_lex_transitive(
                            encode_utf8(key_model),
                            encode_utf8(old_view[i as int].0),
                            encode_utf8(old_view[b - 1].0),
                        );
                    }
                    lemma_lex_transitive(
                        encode_utf8(old_view[a].0),
                        encode_utf8(key_model),
                        encode_utf8(old_view[b - 1].0),
                    );
                } else if a == i {
                    assert(nv[b] == old_view[b - 1]);
                    if b - 1 > i {
                        lemma_lex_transitive(
                            encode_utf8(key_model),
                            encode_utf8(old_view[i as int].0),
                            encode_utf8(old_view[b - 1].0),
                        );
                    }
                } else if a > i {
                    assert(nv[a] == old_view[a - 1]);
                    assert(nv[b] == old_view[b - 1]);
                } else {
                    assert(nv[a] == old_view[a]);
                    assert(nv[b] == old_view[b]);
                }
            }
            lemma_lookup_insert(old_view, i as int, key_model, value_model);
        }
    }
}

/// Replacing the value of the entry with the key changes the value of
/// that key only.
pub proof fn lemma_lookup_update<V>(
    es: Seq<(Seq<char>, V)>,
    i: int,
    key: Seq<char>,
    value: V,
)
    requires
        keys_sorted(es),
        0 <= i < es.len(),
        es[i].0 == key,
    ensures
        forall|k: Seq<char>|
            #[trigger] lookup(es.update(i, (key, value)), k) == if k == key {
                Some(value)
            } else {
                lookup(es, k)
            },
{
    let ns = es.update(i, (key, value));
    assert forall|k: Seq<char>| #[trigger]
        lookup(ns, k) == if k == key {
            Some(value)
        } else {
            lookup(es, k)
        } by {
        if k == key {
            assert(ns[i].0 == k);
            let c = choose|j: int| 0 <= j < ns.len() && (#[trigger] ns[j]).0 == k;
            if c != i {
                lemma_unique_key(es, c, i);
            }
        } else {
            if exists|j: int| 0 <= j < es.len() && (#[trigger] es[j]).0 == k {
                let c = choose|j: int| 0 <= j < es.len() && (#[trigger] es[j]).0 == k;
                assert(ns[c].0 == k);
                let d = choose|j: int| 0 <= j < ns.len() && (#[trigger] ns[j]).0 == k;
                if c != d {
                    lemma_unique_key(es, c, d);
                }
            } else {
                assert forall|j: int| 0 <= j < ns.len() implies (#[trigger] ns[j]).0 != k by {
                    if j != i {
                        assert(ns[j] == es[j]);
                    }
                }
            }
        }
    }
}

/// Adding an entry for a key that had none gives that key its value and
/// leaves the others.
pub proof fn lemma_lookup_insert<V>(
    es: Seq<(Seq<char>, V)>,
    i: int,
    key: Seq<char>,
    value: V,
)
    requires
        keys_sorted(es.insert(i, (key, value))),
        0 <= i <= es.len(),
    ensures
        forall|k: Seq<char>|
            #[trigger] lookup(es.insert(i, (key, value)), k) == if k == key {
                Some(value)
            } else {
                lookup(es, k)
            },
{
    let ns = es.insert(i, (key, value));
    assert forall|k: Seq<char>| #[trigger]
        lookup(ns, k) == if k == key {
            Some(value)
        } else {
            lookup(es, k)
        } by {
        if k == key {
            assert(ns[i].0 == k);
            let c = choose|j: int| 0 <= j < ns.len() && (#[trigger] ns[j]).0 == k;
            if c != i {
                lemma_unique_key(ns, c, i);
            }
        } else {
            if exists|j: int| 0 <= j < es.len() && (#[trigger] es[j]).0 == k {
                let c = choose|j: int| 0 <= j < es.len() && (#[trigger] es[j]).0 == k;
                let c2 = if c < i {
                    c
                } else {
                    c + 1
                };
                assert(ns[c2] == es[c]);
                let d = choose|j: int| 0 <= j < ns.len() && (#[trigger] ns[j]).0 == k;
                if c2 != d {
                    lemma_unique_key(ns, c2, d);
                }
            } else {
                assert forall|j: int| 0 <= j < ns.len() implies (#[trigger] ns[j]).0 != k by {
                    if j < i {
                        assert(ns[j] == es[j]);
                    } else if j > i {
                        assert(ns[j] == es[j - 1]);
                    }
                }
            }
        }
    }
}

/// In entries with sorted keys, two places with the same key are one place.
pub proof fn lemma_unique_key<V>(es: Seq<(Seq<char>, V)>, a: int, b: int)
    requires
        keys_sorted(es),
        0 <= a < es.len(),
        0 <= b < es.len(),
        es[a].0 == es[b].0,
    ensures
        a == b,
{
    if a < b {
        lemma_lex_irreflexive(encode_utf8(es[a].0));
    } else if b < a {
        lemma_lex_irreflexive(encode_utf8(es[b].0));
    }
}

/// Why a property cannot be written.
#[derive(Debug, Clone, Copy, PartialEq, Eq, Structural)]
pub enum PropertyWriteError {
    /// A string is longer than `u16::MAX` bytes.
    StringTooLong,
    /// A list has more than `u32::MAX` items.
    TooManyItems,
    /// A map has more than `u32::MAX` entries.
    TooManyProperties,
}

/// The type tag of a property's model.
pub open spec fn prop_tag(m: PropertyModel) -> PropertyTag {
    match m {
        PropertyModel::Bool(_) => PropertyTag::Bool,
        PropertyModel::I8(_) => PropertyTag::I8,
        PropertyModel::U8(_) => PropertyTag::U8,
        PropertyModel::I16(_) => PropertyTag::I16,
        PropertyModel::U16(_) => PropertyTag::U16,
        PropertyModel::I32(_) => PropertyTag::I32,
        PropertyModel::U32(_) => PropertyTag::U32,
        PropertyModel::I64(_) => PropertyTag::I64,
        PropertyModel::U64(_) => PropertyTag::U64,
        PropertyModel::F32(_) => PropertyTag::F32,
        PropertyModel::F64(_) => PropertyTag::F64,
        PropertyModel::FixedPoint(_) => PropertyTag::FixedPoint,
        PropertyModel::Str(_) => PropertyTag::String,
        PropertyModel::Point(_, _) => PropertyTag::Point,
        PropertyModel::Size(_, _) => PropertyTag::Size,
        PropertyModel::Rect(_, _, _, _) => PropertyTag::Rect,
        PropertyModel::List(_) => PropertyTag::Vec,
        PropertyModel::PropMap(_) => PropertyTag::PropMap,
        PropertyModel::Uuid(_) => PropertyTag::Uuid,
    }
}

/// The type number written before a list's items: the items' common type,
/// when the list has items and they all have the type of the first; else 0,
/// and each item is written with its own type.
pub open spec fn group_code(items: Seq<PropertyModel>) -> u16 {
    if items.len() > 0 && forall|i: int|
        0 <= i < items.len() ==> prop_tag(#[trigger] items[i]) == prop_tag(items[0]) {
        tag_code(prop_tag(items[0]))
    } else {
        0
    }
}

/// A string as written: its UTF-8 byte count as a `u16`, then the bytes.
pub open spec fn string_bytes(s: Seq<char>) -> Result<Seq<u8>, PropertyWriteError> {
    let b = encode_utf8(s);
    if b.len() > u16::MAX {
        Err(PropertyWriteError::StringTooLong)
    } else {
        Ok(u16_le(b.len() as u16) + b)
    }
}

/// A property's value as written, without its type.
pub open spec fn untyped_bytes(m: PropertyModel) -> Result<Seq<u8>, PropertyWriteError>
    decreases m,
{
    match m {
        PropertyModel::Bool(b) => Ok(seq![if b { 1u8 } else { 0u8 }]),
        PropertyModel::I8(x) => Ok(seq![x as u8]),
        PropertyModel::U8(x) => Ok(seq![x]),
        PropertyModel::I16(x) => Ok(u16_le(x as u16)),
        PropertyModel::U16(x) => Ok(u16_le(x)),
        PropertyModel::I32(x) => Ok(u32_le(x as u32)),
        PropertyModel::U32(x) => Ok(u32_le(x)),
        PropertyModel::I64(x) => Ok(u64_le(x as u64)),
        PropertyModel::U64(x) => Ok(u64_le(x)),
        PropertyModel::F32(x) => Ok(u32_le(x)),
        PropertyModel::F64(x) => Ok(u64_le(x)),
        PropertyModel::FixedPoint(v) => Ok(u32_le(v as u32)),
        PropertyModel::Str(s) => string_bytes(s),
        PropertyModel::Point(x, y) => Ok(u32_le(x as u32) + u32_le(y as u32)),
        PropertyModel::Size(w, h) => Ok(u32_le(w as u32) + u32_le(h as u32)),
        PropertyModel::Rect(x, y, w, h) => Ok(
            u32_le(x as u32) + u32_le(y as u32) + u32_le(w as u32) + u32_le(h as u32),
        ),
        PropertyModel::List(items) => if items.len() > u32::MAX {
            Err(PropertyWriteError::TooManyItems)
        } else {
            match items_bytes(items, group_code(items)) {
                Err(e) => Err(e),
                Ok(b) => Ok(u32_le(items.len() as u32) + u16_le(group_code(items)) + b),
            }
        },
        PropertyModel::PropMap(es) => if es.len() > u32::MAX {
            Err(PropertyWriteError::TooManyProperties)
        } else {
            match entries_bytes(es) {
                Err(e) => Err(e),
                Ok(b) => Ok(u32_le(es.len() as u32) + b),
            }
        },
        PropertyModel::Uuid(u) => Ok(u),
    }
}

/// A list's items as written after its header: each with its own type
/// first when the group number `g` is 0; the first failure if any.
pub open spec fn items_bytes(items: Seq<PropertyModel>, g: u16) -> Result<Seq<u8>, PropertyWriteError>
    decreases items,
{
    if items.len() == 0 {
        Ok(seq![])
    } else {
        match items_bytes(items.drop_last(), g) {
            Err(e) => Err(e),
            Ok(b) => match untyped_bytes(items[items.len() - 1]) {
                Err(e) => Err(e),
                Ok(p) => Ok(b + (if g == 0 {
                    u16_le(tag_code(prop_tag(items[items.len() - 1])))
                } else {
                    seq![]
                }) + p),
            },
        }
    }
}

/// A map's entries as written after its count: each key, then its value
/// with its type; the first failure if any.
pub open spec fn entries_bytes(es: Seq<(Seq<char>, PropertyModel)>) -> Result<Seq<u8>, PropertyWriteError>
    decreases es,
{
    if es.len() == 0 {
        Ok(seq![])
    } else {
        match entries_bytes(es.drop_last()) {
            Err(e) => Err(e),
            Ok(b) => match string_bytes(es[es.len() - 1].0) {
                Err(e) => Err(e),
                Ok(kb) => match untyped_bytes(es[es.len() - 1].1) {
                    Err(e) => Err(e),
                    Ok(vb) => Ok(b + kb + u16_le(tag_code(prop_tag(es[es.len() - 1].1))) + vb),
                },
            },
        }
    }
}

/// A property as written with its type: the type number, then the value.
pub open spec fn typed_bytes(m: PropertyModel) -> Result<Seq<u8>, PropertyWriteError> {
    match untyped_bytes(m) {
        Err(e) => Err(e),
        Ok(b) => Ok(u16_le(tag_code(prop_tag(m))) + b),
    }
}

/// Whether writing gave `r` and took `before` to `after`, as `expected`
/// says: its bytes appended on success, its error on failure.
pub open spec fn wrote(
    r: Result<(), PropertyWriteError>,
    before: Seq<u8>,
    after: Seq<u8>,
    expected: Result<Seq<u8>, PropertyWriteError>,
) -> bool {
    match expected {
        Ok(b) => r is Ok && after == before + b,
        Err(e) => r == Err::<(), PropertyWriteError>(e),
    }
}

/// A failure among the first `i` items is the failure of the whole list.
proof fn lemma_items_err(s: Seq<PropertyModel>, g: u16, i: int)
    requires
        0 <= i <= s.len(),
        items_bytes(s.take(i), g) is Err,
    ensures
        items_bytes(s, g) == items_bytes(s.take(i), g),
    decreases s.len(),
{
    if i == s.len() {
        assert(s.take(i) =~= s);
    } else {
        assert(s.drop_last().take(i) =~= s.take(i));
        lemma_items_err(s.drop_last(), g, i);
    }
}

/// A failure among the first `i` entries is the failure of the whole map.
proof fn lemma_entries_err(s: Seq<(Seq<char>, PropertyModel)>, i: int)
    requires
        0 <= i <= s.len(),
        entries_bytes(s.take(i)) is Err,
    ensures
        entries_bytes(s) == entries_bytes(s.take(i)),
    decreases s.len(),
{
    if i == s.len() {
        assert(s.take(i) =~= s);
    } else {
        assert(s.drop_last().take(i) =~= s.take(i));
        lemma_entries_err(s.drop_last(), i);
    }
}

/// Appends a string as written.
fn write_string(s: &String, out: &mut Vec<u8>) -> (r: Result<(), PropertyWriteError>)
    ensures
        wrote(r, old(out)@, final(out)@, string_bytes(s@)),
{
    let b = s.as_str().as_bytes();
    if b.len() > 0xffffusize {
        return Err(PropertyWriteError::StringTooLong);
    }
    assert(b@ == encode_utf8(s@));
    put_u16_le(out, b.len() as u16);
    put_slice(out, b);
    assert(out@ =~= old(out)@ + (u16_le(b@.len() as u16) + b@));
    Ok(())
}

impl Property {
    /// The property's type number.
    pub fn type_id(&self) -> (t: u16)
        ensures
            t == tag_code(prop_tag(self@)),
    {
        match self {
            Property::Bool(_) => 1,
            Property::I8(_) => 2,
            Property::U8(_) => 3,
            Property::I16(_) => 4,
            Property::U16(_) => 5,
            Property::I32(_) => 6,
            Property::U32(_) => 7,
            Property::I64(_) => 8,
            Property::U64(_) => 9,
            Property::FixedPoint(_) => 10,
            Property::F32(_) => 11,
            Property::F64(_) => 12,
            Property::String(_) => 13,
            Property::Point(_) => 14,
            Property::Size(_) => 15,
            Property::Rect(_) => 16,
            Property::Vec(_) => 17,
            Property::PropMap(_) => 18,
            Property::Uuid(_) => 19,
        }
    }

    /// Appends the property with its type: the type number, then the value.
    pub fn write_typed_to(&self, out: &mut Vec<u8>) -> (r: Result<(), PropertyWriteError>)
        ensures
            wrote(r, old(out)@, final(out)@, typed_bytes(self@)),
        decreases self, 3int,
    {
        put_u16_le(out, self.type_id());
        let ghost mid = out@;
        let r = self.write_untyped_to(out);
        proof {
            if let Ok(b) = untyped_bytes(self@) {
                assert(out@ =~= old(out)@ + (u16_le(tag_code(prop_tag(self@))) + b));
            }
        }
        r
    }

    /// Appends the property's value without its type. A list is written
    /// as its item count, the items' common type number (0 when they have
    /// none, and then each item is written with its type), and the items;
    /// a map as its entry count and each key and value (with its type).
    pub fn write_untyped_to(&self, out: &mut Vec<u8>) -> (r: Result<(), PropertyWriteError>)
        ensures
            wrote(r, old(out)@, final(out)@, untyped_bytes(self@)),
        decreases self, 2int,
    {
        match self {
            Property::Bool(b) => {
                put_u8(out, if *b { 1u8 } else { 0u8 });
                assert(out@ =~= old(out)@ + untyped_bytes(self@)->Ok_0);
            },
            Property::I8(x) => {
                put_u8(out, *x as u8);
                assert(out@ =~= old(out)@ + untyped_bytes(self@)->Ok_0);
            },
            Property::U8(x) => {
                put_u8(out, *x);
                assert(out@ =~= old(out)@ + untyped_bytes(self@)->Ok_0);
            },
            Property::I16(x) => put_u16_le(out, *x as u16),
            Property::U16(x) => put_u16_le(out, *x),
            Property::I32(x) => put_u32_le(out, *x as u32),
            Property::U32(x) => put_u32_le(out, *x),
            Property::I64(x) => put_u64_le(out, *x as u64),
            Property::U64(x) => put_u64_le(out, *x),
            Property::F32(x) => put_u32_le(out, *x),
            Property::F64(x) => put_u64_le(out, *x),
            Property::FixedPoint(f) => put_u32_le(out, f.raw() as u32),
            Property::String(s) => {
                return write_string(s, out);
            },
            Property::Point(pt) => {
                put_u32_le(out, pt.x() as u32);
                put_u32_le(out, pt.y() as u32);
                assert(out@ =~= old(out)@ + untyped_bytes(self@)->Ok_0);
            },
            Property::Size(sz) => {
                put_u32_le(out, sz.width() as u32);
                put_u32_le(out, sz.height() as u32);
                assert(out@ =~= old(out)@ + untyped_bytes(self@)->Ok_0);
            },
            Property::Rect(rc) => {
                let pt = rc.point();
                let sz = rc.size();
                put_u32_le(out, pt.x() as u32);
                put_u32_le(out, pt.y() as u32);
                put_u32_le(out, sz.width() as u32);
                put_u32_le(out, sz.height() as u32);
                assert(out@ =~= old(out)@ + untyped_bytes(self@)->Ok_0);
            },
            Property::Vec(items) => {
                return write_items(self, items, out);
            },
            Property::PropMap(m) => {
                return write_entries(self, m, out);
            },
            Property::Uuid(u) => {
                put_slice(out, u.as_slice());
            },
        }
        Ok(())
    }
}

/// Appends a list property's value.
fn write_items(p: &Property, items: &Vec<Property>, out: &mut Vec<u8>) -> (r: Result<(), PropertyWriteError>)
    requires
        *p == Property::Vec(*items),
    ensures
        wrote(r, old(out)@, final(out)@, untyped_bytes(p@)),
    decreases p, 1int,
{
    let ghost ms = p@->List_0;
    assert(ms.len() == items@.len());
    assert(forall|j: int| 0 <= j < ms.len() ==> ms[j] == (#[trigger] items@[j])@);
    if items.len() > 0xffff_ffffusize {
        return Err(PropertyWriteError::TooManyItems);
    }
    let mut same = items.len() > 0;
    let mut k: usize = 1;
    while k < items.len()
        invariant
            ms.len() == items@.len(),
            forall|j: int| 0 <= j < ms.len() ==> ms[j] == (#[trigger] items@[j])@,
            same ==> items@.len() > 0 && forall|j: int|
                0 <= j < k && j < ms.len() ==> prop_tag(#[trigger] ms[j]) == prop_tag(ms[0]),
            !same ==> group_code(ms) == 0,
            1 <= k,
        decreases items@.len() - k,
    {
        if items[k].type_id() != items[0].type_id() {
            proof {
                assert(tag_code(prop_tag(ms[k as int])) != tag_code(prop_tag(ms[0])));
            }
            same = false;
        }
        k = k + 1;
    }
    let g: u16 = if same {
        items[0].type_id()
    } else {
        0
    };
    assert(g == group_code(ms));
    put_u32_le(out, items.len() as u32);
    put_u16_le(out, g);
    let ghost header = out@;
    assert(header == old(out)@ + u32_le(ms.len() as u32) + u16_le(g));
    let mut i: usize = 0;
    assert(ms.take(0) =~= Seq::<PropertyModel>::empty());
    while i < items.len()
        invariant
            i <= items@.len(),
            *p == Property::Vec(*items),
            ms == p@->List_0,
            ms.len() == items@.len(),
            ms.len() <= u32::MAX,
            forall|j: int| 0 <= j < ms.len() ==> ms[j] == (#[trigger] items@[j])@,
            g == group_code(ms),
            header == old(out)@ + u32_le(ms.len() as u32) + u16_le(g),
            items_bytes(ms.take(i as int), g) matches Ok(b) && out@ == header + b,
        decreases items@.len() - i,
    {
        let ghost prev = items_bytes(ms.take(i as int), g)->Ok_0;
        assert(ms.take(i + 1).drop_last() =~= ms.take(i as int));
        assert(ms.take(i + 1)[i as int] == ms[i as int]);
        proof {
            assert(decreases_to!(*p => (*p)->Vec_0));
            assert(decreases_to!(*items => items@[i as int]));
        }
        let ghost before = out@;
        let res = if g == 0 {
            items[i].write_typed_to(out)
        } else {
            items[i].write_untyped_to(out)
        };
        if let Err(e) = res {
            proof {
                lemma_items_err(ms, g, i + 1);
            }
            return Err(e);
        }
        proof {
            let pb = untyped_bytes(ms[i as int])->Ok_0;
            if g == 0 {
                assert(out@ =~= header + (prev + u16_le(tag_code(prop_tag(ms[i as int]))) + pb));
            } else {
                assert(out@ =~= header + (prev + Seq::<u8>::empty() + pb));
            }
        }
        i = i + 1;
    }
    assert(ms.take(i as int) =~= ms);
    proof {
        let b = items_bytes(ms, g)->Ok_0;
        assert(out@ =~= old(out)@ + (u32_le(ms.len() as u32) + u16_le(g) + b));
    }
    Ok(())
}

/// Appends a map property's value.
fn write_entries(p: &Property, m: &PropertyMap, out: &mut Vec<u8>) -> (r: Result<(), PropertyWriteError>)
    requires
        *p == Property::PropMap(*m),
    ensures
        wrote(r, old(out)@, final(out)@, untyped_bytes(p@)),
    decreases p, 1int,
{
    let ghost ms = p@->PropMap_0;
    let es = &m.entries;
    assert(ms.len() == es@.len());
    assert(forall|j: int| 0 <= j < ms.len() ==> ms[j] == ((#[trigger] es@[j]).0@, es@[j].1@));
    if es.len() > 0xffff_ffffusize {
        return Err(PropertyWriteError::TooManyProperties);
    }
    put_u32_le(out, es.len() as u32);
    let ghost header = out@;
    let mut i: usize = 0;
    assert(ms.take(0) =~= Seq::<(Seq<char>, PropertyModel)>::empty());
    while i < es.len()
        invariant
            i <= es@.len(),
            *p == Property::PropMap(*m),
            es == &m.entries,
            ms == p@->PropMap_0,
            ms.len() == es@.len(),
            ms.len() <= u32::MAX,
            forall|j: int| 0 <= j < ms.len() ==> ms[j] == ((#[trigger] es@[j]).0@, es@[j].1@),
            header == old(out)@ + u32_le(ms.len() as u32),
            entries_bytes(ms.take(i as int)) matches Ok(b) && out@ == header + b,
        decreases es@.len() - i,
    {
        let ghost prev = entries_bytes(ms.take(i as int))->Ok_0;
        assert(ms.take(i + 1).drop_last() =~= ms.take(i as int));
        assert(ms.take(i + 1)[i as int] == ms[i as int]);
        let entry = &es[i];
        if let Err(e) = write_string(&entry.0, out) {
            proof {
                lemma_entries_err(ms, i + 1);
            }
            return Err(e);
        }
        let ghost after_key = out@;
        proof {
            assert(decreases_to!(*p => (*p)->PropMap_0));
            assert(decreases_to!(*m => m.entries));
            assert(decreases_to!(m.entries => m.entries@[i as int]));
            assert(decreases_to!(m.entries@[i as int] => m.entries@[i as int].1));
        }
        if let Err(e) = entry.1.write_typed_to(out) {
            proof {
                lemma_entries_err(ms, i + 1);
            }
            return Err(e);
        }
        proof {
            let kb = string_bytes(ms[i as int].0)->Ok_0;
            let vb = untyped_bytes(ms[i as int].1)->Ok_0;
            assert(out@ =~= header + (prev + kb + u16_le(tag_code(prop_tag(ms[i as int].1))) + vb));
        }
        i = i + 1;
    }
    assert(ms.take(i as int) =~= ms);
    proof {
        let b = entries_bytes(ms)->Ok_0;
        assert(out@ =~= old(out)@ + (u32_le(ms.len() as u32) + b));
    }
    Ok(())
}

impl PropertyMap {
    /// Appends the map: its entry count, then each key, and each value with
    /// its type.
    pub fn write_to(&self, out: &mut Vec<u8>) -> (r: Result<(), PropertyWriteError>)
        ensures
            wrote(r, old(out)@, final(out)@, untyped_bytes(PropertyModel::PropMap(self@))),
    {
        let es = &self.entries;
        let ghost ms = self@;
        if es.len() > 0xffff_ffffusize {
            return Err(PropertyWriteError::TooManyProperties);
        }
        put_u32_le(out, es.len() as u32);
        let ghost header = out@;
        let mut i: usize = 0;
        assert(ms.take(0) =~= Seq::<(Seq<char>, PropertyModel)>::empty());
        while i < es.len()
            invariant
                i <= es@.len(),
                es == &self.entries,
                ms == self@,
                ms.len() == es@.len(),
                ms.len() <= u32::MAX,
                forall|j: int| 0 <= j < ms.len() ==> ms[j] == ((#[trigger] es@[j]).0@, es@[j].1@),
                header == old(out)@ + u32_le(ms.len() as u32),
                entries_bytes(ms.take(i as int)) matches Ok(b) && out@ == header + b,
            decreases es@.len() - i,
        {
            let ghost prev = entries_bytes(ms.take(i as int))->Ok_0;
            assert(ms.take(i + 1).drop_last() =~= ms.take(i as int));
            assert(ms.take(i + 1)[i as int] == ms[i as int]);
            let entry = &es[i];
            if let Err(e) = write_string(&entry.0, out) {
                proof {
                    lemma_entries_err(ms, i + 1);
                }
                return Err(e);
            }
            if let Err(e) = entry.1.write_typed_to(out) {
                proof {
                    lemma_entries_err(ms, i + 1);
                }
                return Err(e);
            }
            proof {
                let kb = string_bytes(ms[i as int].0)->Ok_0;
                let vb = untyped_bytes(ms[i as int].1)->Ok_0;
                assert(out@ =~= header + (prev + kb + u16_le(tag_code(prop_tag(ms[i as int].1))) + vb));
            }
            i = i + 1;
        }
        assert(ms.take(i as int) =~= ms);
        proof {
            let b = entries_bytes(ms)->Ok_0;
            assert(out@ =~= old(out)@ + (u32_le(ms.len() as u32) + b));
        }
        Ok(())
    }
}

/// Every UUID of a property has its 16 bytes.
pub proof fn lemma_property_uuids_sized(p: Property)
    ensures
        crate::formats::aseprite::props::reading::uuids_sized(p@),
    decreases p,
{
    match p {
        Property::Vec(items) => {
            let ms = p@->List_0;
            assert forall|i: int| 0 <= i < ms.len() implies crate::formats::aseprite::props::reading::uuids_sized(
                #[trigger] ms[i],
            ) by {
                assert(decreases_to!(p => items));
                assert(decreases_to!(items => items@[i]));
                lemma_property_uuids_sized(items@[i]);
            }
        },
        Property::PropMap(m) => {
            let es = p@->PropMap_0;
            assert forall|i: int| 0 <= i < es.len() implies crate::formats::aseprite::props::reading::uuids_sized(
                #[trigger] es[i].1,
            ) by {
                assert(decreases_to!(p => m));
                assert(decreases_to!(m => m.entries));
                assert(decreases_to!(m.entries => m.entries@[i]));
                assert(decreases_to!(m.entries@[i] => m.entries@[i].1));
                lemma_property_uuids_sized(m.entries@[i].1);
            }
        },
        Property::Uuid(u) => {
            assert(u@.len() == 16);
        },
        _ => {},
    }
}

/// A property written with its type reads back as the property, whatever
/// follows it: its type, and each of its fields in its place.
pub proof fn lemma_property_roundtrip(p: Property, t: Seq<u8>)
    requires
        typed_bytes(p@) is Ok,
    ensures
        crate::formats::aseprite::props::reading::read_typed_value(
            typed_bytes(p@)->Ok_0 + t,
            crate::formats::aseprite::props::reading::depth(p@),
        ) == Some((p@, t)),
{
    lemma_property_uuids_sized(p);
    crate::formats::aseprite::props::reading::lemma_typed_roundtrip(p@, t);
}

/// A property map as `PropertyMap::write_to` writes it reads back as the
/// map, whatever follows it: each key, and each value with its type.
pub proof fn lemma_property_map_roundtrip(m: PropertyMap, t: Seq<u8>)
    requires
        untyped_bytes(PropertyModel::PropMap(m@)) is Ok,
    ensures
        crate::formats::aseprite::props::reading::read_untyped(
            PropertyTag::PropMap,
            untyped_bytes(PropertyModel::PropMap(m@))->Ok_0 + t,
            crate::formats::aseprite::props::reading::depth(PropertyModel::PropMap(m@)),
        ) == Some((PropertyModel::PropMap(m@), t)),
{
    let v = PropertyModel::PropMap(m@);
    assert forall|i: int| 0 <= i < m@.len() implies crate::formats::aseprite::props::reading::uuids_sized(
        #[trigger] m@[i].1,
    ) by {
        lemma_property_uuids_sized(m.entries@[i].1);
    }
    crate::formats::aseprite::props::reading::lemma_untyped_roundtrip(
        v,
        t,
        crate::formats::aseprite::props::reading::depth(v),
    );
}

/// A point, a size or a rectangle is written as its fields one after the
/// other, each as the four little-endian bytes of an `i32`: a point its x
/// then its y, a size its width then its height, a rectangle its x, y,
/// width and height.
pub proof fn lemma_geometry_bytes(p: Property)
    ensures
        p matches Property::Point(pt) ==> {
            let b = untyped_bytes(p@)->Ok_0;
            &&& untyped_bytes(p@) is Ok && b.len() == 8
            &&& crate::bytes_le::u32_at(b, 0) as i32 == pt@.0
            &&& crate::bytes_le::u32_at(b, 4) as i32 == pt@.1
        },
        p matches Property::Size(sz) ==> {
            let b = untyped_bytes(p@)->Ok_0;
            &&& untyped_bytes(p@) is Ok && b.len() == 8
            &&& crate::bytes_le::u32_at(b, 0) as i32 == sz@.0
            &&& crate::bytes_le::u32_at(b, 4) as i32 == sz@.1
        },
        p matches Property::Rect(r) ==> {
            let b = untyped_bytes(p@)->Ok_0;
            &&& untyped_bytes(p@) is Ok && b.len() == 16
            &&& crate::bytes_le::u32_at(b, 0) as i32 == r@.0@.0
            &&& crate::bytes_le::u32_at(b, 4) as i32 == r@.0@.1
            &&& crate::bytes_le::u32_at(b, 8) as i32 == r@.1@.0
            &&& crate::bytes_le::u32_at(b, 12) as i32 == r@.1@.1
        },
{
    match p {
        Property::Point(pt) => {
            lemma_pair_bytes(pt@.0, pt@.1);
        },
        Property::Size(sz) => {
            lemma_pair_bytes(sz@.0, sz@.1);
        },
        Property::Rect(r) => {
            let (x, y, w, h) = (r@.0@.0, r@.0@.1, r@.1@.0, r@.1@.1);
            let b = u32_le(x as u32) + u32_le(y as u32) + u32_le(w as u32) + u32_le(h as u32);
            assert(b.subrange(0, 4) =~= u32_le(x as u32));
            assert(b.subrange(4, 8) =~= u32_le(y as u32));
            assert(b.subrange(8, 12) =~= u32_le(w as u32));
            assert(b.subrange(12, 16) =~= u32_le(h as u32));
            crate::bytes_le::lemma_u32_at(b, 0, x as u32);
            crate::bytes_le::lemma_u32_at(b, 4, y as u32);
            crate::bytes_le::lemma_u32_at(b, 8, w as u32);
            crate::bytes_le::lemma_u32_at(b, 12, h as u32);
            crate::bytes_le::lemma_signed_casts(0, 0, x, 0);
            crate::bytes_le::lemma_signed_casts(0, 0, y, 0);
            crate::bytes_le::lemma_signed_casts(0, 0, w, 0);
            crate::bytes_le::lemma_signed_casts(0, 0, h, 0);
        },
        _ => {},
    }
}

/// Two `i32`s written one after the other read back in their order.
proof fn lemma_pair_bytes(a: i32, c: i32)
    ensures
        ({
            let b = u32_le(a as u32) + u32_le(c as u32);
            &&& b.len() == 8
            &&& crate::bytes_le::u32_at(b, 0) as i32 == a
            &&& crate::bytes_le::u32_at(b, 4) as i32 == c
        }),
{
    let b = u32_le(a as u32) + u32_le(c as u32);
    assert(b.subrange(0, 4) =~= u32_le(a as u32));
    assert(b.subrange(4, 8) =~= u32_le(c as u32));
    crate::bytes_le::lemma_u32_at(b, 0, a as u32);
    crate::bytes_le::lemma_u32_at(b, 4, c as u32);
    crate::bytes_le::lemma_signed_casts(0, 0, a, 0);
    crate::bytes_le::lemma_signed_casts(0, 0, c, 0);
}

} // verus!
