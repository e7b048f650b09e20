//! Flattening a book into its file format: each item lists its parent by
//! its index in the parent's list.
use std::collections::BTreeMap;

use vstd::prelude::*;
use vstd::std_specs::iter::IteratorSpec;

use crate::book::file_format::{
    build_line_text, conv_quad_at, line_text_model, noun_pair_at, plain_style, refs_in_range,
    room_num_at, BookFormat, ConditionIndex, ConditionItem,
    ConversationIndex, ConversationItem, LineItem, NounIndex, NounItem, RoleIndex, RoleItem,
    RoomIndex, RoomItem, VerbIndex, VerbItem,
};
use crate::book::{opt_str, roles_model, Book, LineEntry};
use crate::formats::aseprite::props::lookup;
use crate::strings::str_eq;
use crate::book::file_format::clone_opt_string;
use crate::strings::{decimal_spec, push_decimal};

verus! {

broadcast use {vstd::std_specs::btree::group_btree_axioms, vstd::laws_cmp::group_laws_cmp};

/// The identifier of a role item: `role-` and the role's identifier.
pub open spec fn role_item_id(raw: Seq<char>) -> Seq<char> {
    "role-"@ + raw
}

/// Lists the book's roles, in the book's order.
pub fn build_roles(book: &Book) -> (items: Vec<RoleItem>)
    ensures
        items@.len() == book.roles@.len(),
        forall|i: int|
            0 <= i < items@.len() ==> {
                let item = #[trigger] items@[i];
                &&& item.raw@ == book.roles@[i].0@
                &&& item.id@ == role_item_id(book.roles@[i].0@)
                &&& item.name@ == book.roles@[i].1.name@
                &&& item.short_name@ == book.roles@[i].1.short_name@
            },
{
    let mut items: Vec<RoleItem> = Vec::new();
    let mut i: usize = 0;
    while i < book.roles.len()
        invariant
            i <= book.roles@.len(),
            items@.len() == i,
            forall|j: int|
                0 <= j < i ==> {
                    let item = #[trigger] items@[j];
                    &&& item.raw@ == book.roles@[j].0@
                    &&& item.id@ == role_item_id(book.roles@[j].0@)
                    &&& item.name@ == book.roles@[j].1.name@
                    &&& item.short_name@ == book.roles@[j].1.short_name@
                },
        decreases book.roles@.len() - i,
    {
        let (raw, entry) = &book.roles[i];
        let mut id = String::from_str("role-");
        id.append(raw.as_str());
        items.push(
            RoleItem {
                id,
                raw: raw.clone(),
                name: entry.name.clone(),
                short_name: entry.short_name.clone(),
            },
        );
        i = i + 1;
    }
    items
}

/// The identifier of a verb item: `verb-` and the verb's number.
pub open spec fn verb_item_id(num: u8) -> Seq<char> {
    "verb-"@ + decimal_spec(num as nat)
}

/// Whether `index` maps keys to the positions of items with that key.
pub open spec fn indexes<K, T>(index: Map<K, usize>, items: Seq<T>, key: spec_fn(T) -> K) -> bool {
    forall|k: K|
        #[trigger] index.contains_key(k) ==> index[k] < items.len() && key(items[index[k] as int]) == k
}

/// Lists the book's verbs, in the order of their numbers, with the
/// position of each verb's item.
pub fn build_verbs(book: &Book) -> (r: (Vec<VerbItem>, BTreeMap<u8, usize>))
    ensures
        forall|i: int|
            0 <= i < r.0@.len() ==> {
                let item = #[trigger] r.0@[i];
                &&& book.verbs@.contains_key(item.num)
                &&& item.name@ == book.verbs@[item.num].name@
                &&& item.id@ == verb_item_id(item.num)
            },
        indexes(r.1@, r.0@, |v: VerbItem| v.num),
        forall|k: u8| #[trigger] book.verbs@.contains_key(k) ==> r.1@.contains_key(k),
{
    let mut items: Vec<VerbItem> = Vec::new();
    let mut index: BTreeMap<u8, usize> = BTreeMap::new();
    let ghost s = vstd::std_specs::btree::spec_btree_map_iter(&book.verbs).remaining();
    let ghost mut seen: int = 0;
    for (num, verb) in it: book.verbs.iter()
        invariant
            it.seq() == s,
            seen == it.index(),
            forall|j: int|
                #![trigger s[j]]
                0 <= j < s.len() ==> book.verbs@.contains_key(*s[j].0) && book.verbs@[*s[j].0]
                    == *s[j].1,
            forall|i: int|
                0 <= i < items@.len() ==> {
                    let item = #[trigger] items@[i];
                    &&& book.verbs@.contains_key(item.num)
                    &&& item.name@ == book.verbs@[item.num].name@
                    &&& item.id@ == verb_item_id(item.num)
                },
            indexes(index@, items@, |v: VerbItem| v.num),
            forall|j: int| 0 <= j < seen ==> #[trigger] index@.contains_key(*s[j].0),
    {
        assert(s[seen] == (num, verb));
        let mut id = String::from_str("verb-");
        push_decimal(&mut id, *num as u64);
        let position = items.len();
        items.push(VerbItem { id, num: *num, name: verb.name.clone() });
        index.insert(*num, position);
        proof {
            assert forall|j: int| 0 <= j < seen + 1 implies #[trigger] index@.contains_key(*s[j].0) by {}
            seen = seen + 1;
        }
    }
    proof {
        assert forall|k: u8| #[trigger] book.verbs@.contains_key(k) implies index@.contains_key(k) by {
            assert(s.contains((&k, &book.verbs@[k])));
            let j = choose|j: int| 0 <= j < s.len() && s[j] == (&k, &book.verbs@[k]);
            assert(index@.contains_key(*s[j].0));
        }
    }
    (items, index)
}

/// Lists the book's rooms, in the order of their numbers, with the
/// position of each room's item. The item's identifier is left empty:
/// rooms are named by their number.
pub fn build_rooms(book: &Book) -> (r: (Vec<RoomItem>, BTreeMap<u16, usize>))
    ensures
        forall|i: int|
            0 <= i < r.0@.len() ==> {
                let item = #[trigger] r.0@[i];
                &&& book.rooms@.contains_key(item.num)
                &&& opt_str(item.name) == opt_str(book.rooms@[item.num].name)
            },
        indexes(r.1@, r.0@, |v: RoomItem| v.num),
        forall|k: u16| #[trigger] book.rooms@.contains_key(k) ==> r.1@.contains_key(k),
        forall|i: int| 0 <= i < r.0@.len() ==> r.1@[(#[trigger] r.0@[i]).num] == i,
{
    proof {
        lemma_room_keys_ordered();
    }
    let mut items: Vec<RoomItem> = Vec::new();
    let mut index: BTreeMap<u16, usize> = BTreeMap::new();
    let ghost s = vstd::std_specs::btree::spec_btree_map_iter(&book.rooms).remaining();
    let ghost mut seen: int = 0;
    for (num, room) in it: book.rooms.iter()
        invariant
            it.seq() == s,
            seen == it.index(),
            s.no_duplicates(),
            forall|j: int|
                #![trigger s[j]]
                0 <= j < s.len() ==> book.rooms@.contains_key(*s[j].0) && book.rooms@[*s[j].0]
                    == *s[j].1,
            forall|i: int|
                0 <= i < items@.len() ==> {
                    let item = #[trigger] items@[i];
                    &&& book.rooms@.contains_key(item.num)
                    &&& opt_str(item.name) == opt_str(book.rooms@[item.num].name)
                },
            indexes(index@, items@, |v: RoomItem| v.num),
            forall|j: int| 0 <= j < seen ==> #[trigger] index@.contains_key(*s[j].0),
            forall|k: u16| #[trigger] index@.contains_key(k) ==> exists|j: int| 0 <= j < seen && *s[j].0 == k,
            forall|i: int|
                0 <= i < items@.len() ==> index@.contains_key((#[trigger] items@[i]).num)
                    && index@[items@[i].num] == i,
    {
        assert(s[seen] == (num, room));
        proof {
            if index@.contains_key(*num) {
                let j = choose|j: int| 0 <= j < seen && *s[j].0 == *num;
                assert(book.rooms@[*s[j].0] == *s[j].1);
                assert(s[j] == s[seen]);
            }
        }
        let ghost old_index = index@;
        let position = items.len();
        let ghost before = items@;
        items.push(RoomItem { id: String::new(), num: *num, name: clone_opt_string(&room.name) });
        index.insert(*num, position);
        proof {
            assert forall|j: int| 0 <= j < seen + 1 implies #[trigger] index@.contains_key(*s[j].0) by {}
            assert forall|k: u16| #[trigger] index@.contains_key(k) implies exists|j: int|
                0 <= j < seen + 1 && *s[j].0 == k by {
                if k != *num {
                    let j = choose|j: int| 0 <= j < seen && *s[j].0 == k;
                }
            }
            assert forall|i: int|
                0 <= i < items@.len() implies index@.contains_key((#[trigger] items@[i]).num)
                    && index@[items@[i].num] == i by {
                if i < position {
                    assert(items@[i] == before[i]);
                    assert(old_index.contains_key(before[i].num));
                    assert(before[i].num != *num);
                }
            }
            seen = seen + 1;
        }
    }
    proof {
        assert forall|k: u16| #[trigger] book.rooms@.contains_key(k) implies index@.contains_key(k) by {
            assert(s.contains((&k, &book.rooms@[k])));
            let j = choose|j: int| 0 <= j < s.len() && s[j] == (&k, &book.rooms@[k]);
            assert(index@.contains_key(*s[j].0));
        }
    }
    (items, index)
}

/// Whether some key has the position `p` in `index`.
pub open spec fn has_key_at<K>(index: Map<K, usize>, p: int) -> bool {
    exists|k: K| #[trigger] index.contains_key(k) && index[k] == p
}

/// Pairs of numbers are ordered keys of a `BTreeMap`.
proof fn lemma_pair_keys_ordered()
    ensures
        vstd::std_specs::btree::key_obeys_cmp_spec::<(u16, u8)>(),
        vstd::std_specs::btree::key_obeys_cmp_spec::<(u8, u8)>(),
{
}

/// Numbers are ordered keys of a `BTreeMap`.
proof fn lemma_number_keys_ordered()
    ensures
        vstd::std_specs::btree::key_obeys_cmp_spec::<u8>(),
{
}

/// Room numbers are ordered keys of a `BTreeMap`.
proof fn lemma_room_keys_ordered()
    ensures
        vstd::std_specs::btree::key_obeys_cmp_spec::<u16>(),
{
}

/// The identifier of a condition item: `condition-`, the room's number, `-`
/// and the condition's number.
pub open spec fn condition_item_id(room: u16, num: u8) -> Seq<char> {
    "condition-"@ + decimal_spec(room as nat) + "-"@ + decimal_spec(num as nat)
}

/// Whether a condition item lists a condition of the book: under the
/// item of its room, with its number, description and identifier.
pub open spec fn condition_item_ok(book: Book, room_index: Map<u16, usize>, item: ConditionItem) -> bool {
    exists|room: u16|
        #![trigger room_index[room]]
        {
            &&& book.rooms@.contains_key(room)
            &&& room_index[room] == item.parent_room.0
            &&& book.rooms@[room].conditions@.contains_key(item.num)
            &&& opt_str(item.description) == opt_str(book.rooms@[room].conditions@[item.num].desc)
            &&& item.id@ == condition_item_id(room, item.num)
        }
}

/// Whether `index` maps (room, number) pairs to the positions of items
/// with that number under the room's item.
pub open spec fn indexes_in_rooms<T>(
    index: Map<(u16, u8), usize>,
    items: Seq<T>,
    num: spec_fn(T) -> u8,
    parent: spec_fn(T) -> usize,
    room_index: Map<u16, usize>,
) -> bool {
    forall|k: (u16, u8)|
        #[trigger] index.contains_key(k) ==> index[k] < items.len() && num(items[index[k] as int])
            == k.1 && room_index.contains_key(k.0) && parent(items[index[k] as int]) == room_index[k.0]
}

/// Lists the book's conditions, room by room in the order of their
/// numbers, with the position of each condition's item.
pub fn build_conditions(book: &Book, room_index: &BTreeMap<u16, usize>) -> (r: (
    Vec<ConditionItem>,
    BTreeMap<(u16, u8), usize>,
))
    requires
        forall|k: u16| #[trigger] book.rooms@.contains_key(k) ==> room_index@.contains_key(k),
    ensures
        forall|i: int|
            0 <= i < r.0@.len() ==> condition_item_ok(*book, room_index@, #[trigger] r.0@[i]),
        indexes_in_rooms(
            r.1@,
            r.0@,
            |c: ConditionItem| c.num,
            |c: ConditionItem| c.parent_room.0,
            room_index@,
        ),
        forall|room: u16, c: u8|
            book.rooms@.contains_key(room) && #[trigger] book.rooms@[room].conditions@.contains_key(c)
                ==> r.1@.contains_key((room, c)),
{
    let mut items: Vec<ConditionItem> = Vec::new();
    let mut index: BTreeMap<(u16, u8), usize> = BTreeMap::new();
    let ghost sr = vstd::std_specs::btree::spec_btree_map_iter(&book.rooms).remaining();
    let ghost mut seen: int = 0;
    for (rnum, room) in it: book.rooms.iter()
        invariant
            it.seq() == sr,
            seen == it.index(),
            forall|k: u16| #[trigger] book.rooms@.contains_key(k) ==> room_index@.contains_key(k),
            forall|j: int|
                #![trigger sr[j]]
                0 <= j < sr.len() ==> book.rooms@.contains_key(*sr[j].0) && book.rooms@[*sr[j].0]
                    == *sr[j].1,
            forall|i: int|
                0 <= i < items@.len() ==> condition_item_ok(*book, room_index@, #[trigger] items@[i]),
            indexes_in_rooms(
                index@,
                items@,
                |c: ConditionItem| c.num,
                |c: ConditionItem| c.parent_room.0,
                room_index@,
            ),
            forall|j: int, c: u8|
                0 <= j < seen && #[trigger] book.rooms@[*sr[j].0].conditions@.contains_key(c)
                    ==> index@.contains_key((*sr[j].0, c)),
    {
        assert(sr[seen] == (rnum, room));
        let parent = match room_index.get(rnum) {
            Some(p) => *p,
            None => {
                proof {
                    assert(false);
                }
                0
            },
        };
        let ghost sc = vstd::std_specs::btree::spec_btree_map_iter(&room.conditions).remaining();
        let ghost mut inner: int = 0;
        for (cnum, cond) in it2: room.conditions.iter()
            invariant
                it2.seq() == sc,
                inner == it2.index(),
                book.rooms@.contains_key(*rnum),
                book.rooms@[*rnum] == *room,
                room_index@.contains_key(*rnum),
                room_index@[*rnum] == parent,
                forall|j: int|
                    #![trigger sc[j]]
                    0 <= j < sc.len() ==> room.conditions@.contains_key(*sc[j].0)
                        && room.conditions@[*sc[j].0] == *sc[j].1,
                forall|i: int|
                    0 <= i < items@.len() ==> condition_item_ok(*book, room_index@, #[trigger] items@[i]),
                indexes_in_rooms(
                    index@,
                    items@,
                    |c: ConditionItem| c.num,
                    |c: ConditionItem| c.parent_room.0,
                    room_index@,
                ),
                forall|j: int, c: u8|
                    0 <= j < seen && #[trigger] book.rooms@[*sr[j].0].conditions@.contains_key(c)
                        ==> index@.contains_key((*sr[j].0, c)),
                forall|t: int| 0 <= t < inner ==> #[trigger] index@.contains_key((*rnum, *sc[t].0)),
        {
            assert(sc[inner] == (cnum, cond));
            let mut id = String::from_str("condition-");
            push_decimal(&mut id, *rnum as u64);
            id.append("-");
            push_decimal(&mut id, *cnum as u64);
            proof {
                reveal_strlit("condition-");
                reveal_strlit("-");
            }
            let position = items.len();
            items.push(
                ConditionItem {
                    id,
                    num: *cnum,
                    description: clone_opt_string(&cond.desc),
                    parent_room: RoomIndex(parent),
                },
            );
            index.insert((*rnum, *cnum), position);
            proof {
                let item = items@[position as int];
                assert(room_index@[*rnum] == item.parent_room.0);
                assert(book.rooms@[*rnum].conditions@.contains_key(*cnum));
                assert(condition_item_ok(*book, room_index@, item));
                inner = inner + 1;
            }
        }
        proof {
            assert forall|j: int, c: u8|
                0 <= j < seen + 1 && #[trigger] book.rooms@[*sr[j].0].conditions@.contains_key(c)
                    implies index@.contains_key((*sr[j].0, c)) by {
                if j == seen {
                    assert(sc.contains((&c, &room.conditions@[c])));
                    let t = choose|t: int| 0 <= t < sc.len() && sc[t] == (&c, &room.conditions@[c]);
                    assert(index@.contains_key((*rnum, *sc[t].0)));
                }
            }
            seen = seen + 1;
        }
    }
    proof {
        assert forall|room: u16, c: u8|
            book.rooms@.contains_key(room) && #[trigger] book.rooms@[room].conditions@.contains_key(c)
                implies index@.contains_key((room, c)) by {
            assert(sr.contains((&room, &book.rooms@[room])));
            let j = choose|j: int| 0 <= j < sr.len() && sr[j] == (&room, &book.rooms@[room]);
            assert(book.rooms@[*sr[j].0].conditions@.contains_key(c));
        }
    }
    (items, index)
}

/// Whether a noun item lists a noun of the book: under the item of its
/// room, with its number, description and whether it is a cutscene.
pub open spec fn noun_item_ok(book: Book, room_index: Map<u16, usize>, item: NounItem) -> bool {
    exists|room: u16|
        #![trigger room_index[room]]
        {
            &&& book.rooms@.contains_key(room)
            &&& room_index[room] == item.parent_room.0
            &&& book.rooms@[room].nouns@.contains_key(item.num)
            &&& opt_str(item.description) == opt_str(book.rooms@[room].nouns@[item.num].desc)
            &&& item.is_cutscene == book.rooms@[room].nouns@[item.num].is_cutscene
        }
}

/// Lists the book's nouns, room by room in the order of their numbers,
/// with the position of each noun's item. The item's identifier is left
/// empty: nouns are named by their room and number.
pub fn build_nouns(book: &Book, room_index: &BTreeMap<u16, usize>) -> (r: (
    Vec<NounItem>,
    BTreeMap<(u16, u8), usize>,
))
    requires
        forall|k: u16| #[trigger] book.rooms@.contains_key(k) ==> room_index@.contains_key(k),
    ensures
        forall|i: int|
            0 <= i < r.0@.len() ==> noun_item_ok(*book, room_index@, #[trigger] r.0@[i]),
        indexes_in_rooms(
            r.1@,
            r.0@,
            |c: NounItem| c.num,
            |c: NounItem| c.parent_room.0,
            room_index@,
        ),
        forall|room: u16, c: u8|
            book.rooms@.contains_key(room) && #[trigger] book.rooms@[room].nouns@.contains_key(c)
                ==> r.1@.contains_key((room, c)),
        forall|k: (u16, u8)|
            #[trigger] r.1@.contains_key(k) ==> book.rooms@.contains_key(k.0) && book.rooms@[k.0].nouns@.contains_key(k.1),
        forall|p: int|
            0 <= p < r.0@.len() ==> #[trigger] has_key_at(r.1@, p),
{
    proof {
        lemma_room_keys_ordered();
        lemma_number_keys_ordered();
    }
    let mut items: Vec<NounItem> = Vec::new();
    let mut index: BTreeMap<(u16, u8), usize> = BTreeMap::new();
    let ghost sr = vstd::std_specs::btree::spec_btree_map_iter(&book.rooms).remaining();
    let ghost mut seen: int = 0;
    for (rnum, room) in it: book.rooms.iter()
        invariant
            it.seq() == sr,
            seen == it.index(),
            forall|k: u16| #[trigger] book.rooms@.contains_key(k) ==> room_index@.contains_key(k),
            forall|j: int|
                #![trigger sr[j]]
                0 <= j < sr.len() ==> book.rooms@.contains_key(*sr[j].0) && book.rooms@[*sr[j].0]
                    == *sr[j].1,
            forall|i: int|
                0 <= i < items@.len() ==> noun_item_ok(*book, room_index@, #[trigger] items@[i]),
            indexes_in_rooms(
                index@,
                items@,
                |c: NounItem| c.num,
                |c: NounItem| c.parent_room.0,
                room_index@,
            ),
            forall|j: int, c: u8|
                0 <= j < seen && #[trigger] book.rooms@[*sr[j].0].nouns@.contains_key(c)
                    ==> index@.contains_key((*sr[j].0, c)),
            forall|k: (u16, u8)|
                #[trigger] index@.contains_key(k) ==> book.rooms@.contains_key(k.0) && book.rooms@[k.0].nouns@.contains_key(k.1),
            sr.no_duplicates(),
            forall|k: (u16, u8)|
                #[trigger] index@.contains_key(k) ==> exists|j: int| 0 <= j < seen && *sr[j].0 == k.0,
            forall|p: int|
                0 <= p < items@.len() ==> #[trigger] has_key_at(index@, p),
    {
        assert(sr[seen] == (rnum, room));
        let parent = match room_index.get(rnum) {
            Some(p) => *p,
            None => {
                proof {
                    assert(false);
                }
                0
            },
        };
        let ghost sc = vstd::std_specs::btree::spec_btree_map_iter(&room.nouns).remaining();
        let ghost mut inner: int = 0;
        for (nnum, noun) in it2: room.nouns.iter()
            invariant
                it2.seq() == sc,
                inner == it2.index(),
                book.rooms@.contains_key(*rnum),
                book.rooms@[*rnum] == *room,
                room_index@.contains_key(*rnum),
                room_index@[*rnum] == parent,
                forall|j: int|
                    #![trigger sc[j]]
                    0 <= j < sc.len() ==> room.nouns@.contains_key(*sc[j].0)
                        && room.nouns@[*sc[j].0] == *sc[j].1,
                forall|i: int|
                    0 <= i < items@.len() ==> noun_item_ok(*book, room_index@, #[trigger] items@[i]),
                indexes_in_rooms(
                    index@,
                    items@,
                    |c: NounItem| c.num,
                    |c: NounItem| c.parent_room.0,
                    room_index@,
                ),
                forall|j: int, c: u8|
                    0 <= j < seen && #[trigger] book.rooms@[*sr[j].0].nouns@.contains_key(c)
                        ==> index@.contains_key((*sr[j].0, c)),
                forall|t: int| 0 <= t < inner ==> #[trigger] index@.contains_key((*rnum, *sc[t].0)),
                forall|k: (u16, u8)|
                    #[trigger] index@.contains_key(k) ==> book.rooms@.contains_key(k.0) && book.rooms@[k.0].nouns@.contains_key(k.1),
                sr.no_duplicates(),
                sc.no_duplicates(),
                0 <= seen < sr.len(),
                sr[seen] == (rnum, room),
                forall|j: int|
                    #![trigger sr[j]]
                    0 <= j < sr.len() ==> book.rooms@.contains_key(*sr[j].0) && book.rooms@[*sr[j].0]
                        == *sr[j].1,
                forall|k: (u16, u8)|
                    #[trigger] index@.contains_key(k) ==> (exists|j: int| 0 <= j < seen && *sr[j].0 == k.0)
                        || (k.0 == *rnum && exists|t: int| 0 <= t < inner && *sc[t].0 == k.1),
                forall|p: int|
                    0 <= p < items@.len() ==> #[trigger] has_key_at(index@, p),
        {
            assert(sc[inner] == (nnum, noun));
            assert(forall|j: int| 0 <= j < seen ==> *sr[j].0 != *rnum) by {
                assert forall|j: int| 0 <= j < seen implies *sr[j].0 != *rnum by {
                    if *sr[j].0 == *rnum {
                        assert(book.rooms@[*sr[j].0] == *sr[j].1);
                        assert(sr[j] == sr[seen]);
                    }
                }
            }
            assert(forall|t: int| 0 <= t < inner ==> *sc[t].0 != *nnum) by {
                assert forall|t: int| 0 <= t < inner implies *sc[t].0 != *nnum by {
                    if *sc[t].0 == *nnum {
                        assert(room.nouns@[*sc[t].0] == *sc[t].1);
                        assert(sc[t] == sc[inner]);
                    }
                }
            }
            assert(!index@.contains_key((*rnum, *nnum)));
            let ghost old_index = index@;
            let position = items.len();
            items.push(
                NounItem {
                    id: String::new(),
                    num: *nnum,
                    description: clone_opt_string(&noun.desc),
                    is_cutscene: noun.is_cutscene,
                    parent_room: RoomIndex(parent),
                },
            );
            index.insert((*rnum, *nnum), position);
            proof {
                let item = items@[position as int];
                assert(room_index@[*rnum] == item.parent_room.0);
                assert(book.rooms@[*rnum].nouns@.contains_key(*nnum));
                assert(noun_item_ok(*book, room_index@, item));
                assert forall|p: int| 0 <= p < items@.len() implies #[trigger] has_key_at(index@, p) by {
                    if p < position {
                        assert(has_key_at(old_index, p));
                        let k = choose|k: (u16, u8)| #[trigger] old_index.contains_key(k) && old_index[k] == p;
                        assert(index@.contains_key(k) && index@[k] == p);
                    } else {
                        assert(index@.contains_key((*rnum, *nnum)) && index@[(*rnum, *nnum)] == p);
                    }
                }
                assert forall|k: (u16, u8)|
                    #[trigger] index@.contains_key(k) implies (exists|j: int| 0 <= j < seen && *sr[j].0 == k.0)
                        || (k.0 == *rnum && exists|t: int| 0 <= t < inner + 1 && *sc[t].0 == k.1) by {
                    if k == (*rnum, *nnum) {
                        assert(*sc[inner].0 == k.1);
                    } else if !(exists|j: int| 0 <= j < seen && *sr[j].0 == k.0) {
                        let t = choose|t: int| 0 <= t < inner && *sc[t].0 == k.1;
                        assert(0 <= t < inner + 1);
                    }
                }
                inner = inner + 1;
            }
        }
        proof {
            assert forall|j: int, c: u8|
                0 <= j < seen + 1 && #[trigger] book.rooms@[*sr[j].0].nouns@.contains_key(c)
                    implies index@.contains_key((*sr[j].0, c)) by {
                if j == seen {
                    assert(sc.contains((&c, &room.nouns@[c])));
                    let t = choose|t: int| 0 <= t < sc.len() && sc[t] == (&c, &room.nouns@[c]);
                    assert(index@.contains_key((*rnum, *sc[t].0)));
                }
            }
            assert forall|k: (u16, u8)|
                #[trigger] index@.contains_key(k) implies exists|j: int| 0 <= j < seen + 1 && *sr[j].0 == k.0 by {
                if !(exists|j: int| 0 <= j < seen && *sr[j].0 == k.0) {
                    assert(*sr[seen].0 == k.0);
                }
            }
            seen = seen + 1;
        }
    }
    proof {
        assert forall|room: u16, c: u8|
            book.rooms@.contains_key(room) && #[trigger] book.rooms@[room].nouns@.contains_key(c)
                implies index@.contains_key((room, c)) by {
            assert(sr.contains((&room, &book.rooms@[room])));
            let j = choose|j: int| 0 <= j < sr.len() && sr[j] == (&room, &book.rooms@[room]);
            assert(book.rooms@[*sr[j].0].nouns@.contains_key(c));
        }
    }
    (items, index)
}

/// Whether the book has the conversation (room, noun, verb, condition).
pub open spec fn book_has_conv(book: Book, q: (u16, u8, u8, u8)) -> bool {
    &&& book.rooms@.contains_key(q.0)
    &&& book.rooms@[q.0].nouns@.contains_key(q.1)
    &&& book.rooms@[q.0].nouns@[q.1].conversations@.contains_key((q.2, q.3))
}

/// Whether every conversation's verb is a verb of the book and its
/// condition a condition of its room (0 standing for none of either).
pub open spec fn conversations_consistent(book: Book) -> bool {
    forall|q: (u16, u8, u8, u8)|
        #[trigger] book_has_conv(book, q) ==> (q.2 != 0 ==> book.verbs@.contains_key(q.2)) && (q.3
            != 0 ==> book.rooms@[q.0].conditions@.contains_key(q.3))
}

/// Whether a conversation item stands for the conversation `q`: under the
/// item of its noun, with the item of its verb and of its condition (none
/// for 0).
pub open spec fn conv_item_for(
    item: ConversationItem,
    q: (u16, u8, u8, u8),
    verb_index: Map<u8, usize>,
    condition_index: Map<(u16, u8), usize>,
    noun_index: Map<(u16, u8), usize>,
) -> bool {
    &&& noun_index.contains_key((q.0, q.1))
    &&& item.parent_noun.0 == noun_index[(q.0, q.1)]
    &&& match item.verb {
        None => q.2 == 0,
        Some(v) => q.2 != 0 && verb_index.contains_key(q.2) && v.0 == verb_index[q.2],
    }
    &&& match item.condition {
        None => q.3 == 0,
        Some(c) => q.3 != 0 && condition_index.contains_key((q.0, q.3)) && c.0
            == condition_index[(q.0, q.3)],
    }
}

/// Whether a conversation item stands for a conversation of the book.
pub open spec fn conv_item_ok(
    book: Book,
    item: ConversationItem,
    verb_index: Map<u8, usize>,
    condition_index: Map<(u16, u8), usize>,
    noun_index: Map<(u16, u8), usize>,
) -> bool {
    exists|q: (u16, u8, u8, u8)|
        #[trigger] book_has_conv(book, q) && conv_item_for(
            item,
            q,
            verb_index,
            condition_index,
            noun_index,
        )
}

/// Lists the book's conversations, noun by noun in the order of their
/// (room, noun) numbers and then of their keys, with the position of each
/// conversation's item. The item's identifier is left empty.
pub fn build_conversations(
    book: &Book,
    verb_index: &BTreeMap<u8, usize>,
    condition_index: &BTreeMap<(u16, u8), usize>,
    noun_index: &BTreeMap<(u16, u8), usize>,
) -> (r: (Vec<ConversationItem>, BTreeMap<(u16, u8, u8, u8), usize>))
    requires
        conversations_consistent(*book),
        forall|k: u8| #[trigger] book.verbs@.contains_key(k) ==> verb_index@.contains_key(k),
        forall|room: u16, c: u8|
            book.rooms@.contains_key(room) && #[trigger] book.rooms@[room].conditions@.contains_key(c)
                ==> condition_index@.contains_key((room, c)),
        forall|room: u16, n: u8|
            book.rooms@.contains_key(room) && #[trigger] book.rooms@[room].nouns@.contains_key(n)
                ==> noun_index@.contains_key((room, n)),
        forall|k: (u16, u8)|
            #[trigger] noun_index@.contains_key(k) ==> book.rooms@.contains_key(k.0)
                && book.rooms@[k.0].nouns@.contains_key(k.1),
    ensures
        forall|i: int|
            0 <= i < r.0@.len() ==> conv_item_ok(
                *book,
                #[trigger] r.0@[i],
                verb_index@,
                condition_index@,
                noun_index@,
            ),
        forall|q: (u16, u8, u8, u8)|
            #[trigger] r.1@.contains_key(q) ==> r.1@[q] < r.0@.len() && book_has_conv(*book, q)
                && conv_item_for(r.0@[r.1@[q] as int], q, verb_index@, condition_index@, noun_index@),
        forall|q: (u16, u8, u8, u8)| #[trigger] book_has_conv(*book, q) ==> r.1@.contains_key(q),
        forall|p: int| 0 <= p < r.0@.len() ==> #[trigger] has_key_at(r.1@, p),
{
    proof {
        lemma_pair_keys_ordered();
    }
    let mut items: Vec<ConversationItem> = Vec::new();
    let mut index: BTreeMap<(u16, u8, u8, u8), usize> = BTreeMap::new();
    let ghost sn = vstd::std_specs::btree::spec_btree_map_iter(noun_index).remaining();
    let ghost mut seen: int = 0;
    for (noun_key, noun_position) in it: noun_index.iter()
        invariant
            it.seq() == sn,
            seen == it.index(),
            conversations_consistent(*book),
            forall|k: u8| #[trigger] book.verbs@.contains_key(k) ==> verb_index@.contains_key(k),
            forall|room: u16, c: u8|
                book.rooms@.contains_key(room) && #[trigger] book.rooms@[room].conditions@.contains_key(c)
                    ==> condition_index@.contains_key((room, c)),
            forall|k: (u16, u8)|
                #[trigger] noun_index@.contains_key(k) ==> book.rooms@.contains_key(k.0)
                    && book.rooms@[k.0].nouns@.contains_key(k.1),
            forall|j: int|
                #![trigger sn[j]]
                0 <= j < sn.len() ==> noun_index@.contains_key(*sn[j].0) && noun_index@[*sn[j].0]
                    == *sn[j].1,
            forall|i: int|
                0 <= i < items@.len() ==> conv_item_ok(
                    *book,
                    #[trigger] items@[i],
                    verb_index@,
                    condition_index@,
                    noun_index@,
                ),
            forall|q: (u16, u8, u8, u8)|
                #[trigger] index@.contains_key(q) ==> index@[q] < items@.len() && book_has_conv(
                    *book,
                    q,
                ) && conv_item_for(items@[index@[q] as int], q, verb_index@, condition_index@, noun_index@),
            forall|j: int, ck: (u8, u8)|
                0 <= j < seen && #[trigger] book.rooms@[(*sn[j].0).0].nouns@[(*sn[j].0).1].conversations@.contains_key(ck)
                    ==> index@.contains_key(((*sn[j].0).0, (*sn[j].0).1, ck.0, ck.1)),
            sn.no_duplicates(),
            forall|q: (u16, u8, u8, u8)|
                #[trigger] index@.contains_key(q) ==> exists|j: int| 0 <= j < seen && *sn[j].0 == (q.0, q.1),
            forall|p: int| 0 <= p < items@.len() ==> #[trigger] has_key_at(index@, p),
    {
        assert(sn[seen] == (noun_key, noun_position));
        let rnum = noun_key.0;
        let nnum = noun_key.1;
        let room = match book.rooms.get(&rnum) {
            Some(room) => room,
            None => {
                proof {
                    assert(false);
                }
                return (items, index);
            },
        };
        let noun = match room.nouns.get(&nnum) {
            Some(noun) => noun,
            None => {
                proof {
                    assert(false);
                }
                return (items, index);
            },
        };
        let ghost sc = vstd::std_specs::btree::spec_btree_map_iter(&noun.conversations).remaining();
        let ghost mut inner: int = 0;
        for (ckey, conv) in it2: noun.conversations.iter()
            invariant
                it2.seq() == sc,
                inner == it2.index(),
                conversations_consistent(*book),
                forall|k: u8| #[trigger] book.verbs@.contains_key(k) ==> verb_index@.contains_key(k),
                forall|room: u16, c: u8|
                    book.rooms@.contains_key(room) && #[trigger] book.rooms@[room].conditions@.contains_key(c)
                        ==> condition_index@.contains_key((room, c)),
                book.rooms@.contains_key(rnum),
                book.rooms@[rnum].nouns@.contains_key(nnum),
                book.rooms@[rnum].nouns@[nnum] == *noun,
                noun_index@.contains_key((rnum, nnum)),
                noun_index@[(rnum, nnum)] == *noun_position,
                forall|j: int|
                    #![trigger sc[j]]
                    0 <= j < sc.len() ==> noun.conversations@.contains_key(*sc[j].0)
                        && noun.conversations@[*sc[j].0] == *sc[j].1,
                forall|i: int|
                    0 <= i < items@.len() ==> conv_item_ok(
                        *book,
                        #[trigger] items@[i],
                        verb_index@,
                        condition_index@,
                        noun_index@,
                    ),
                forall|q: (u16, u8, u8, u8)|
                    #[trigger] index@.contains_key(q) ==> index@[q] < items@.len() && book_has_conv(
                        *book,
                        q,
                    ) && conv_item_for(items@[index@[q] as int], q, verb_index@, condition_index@, noun_index@),
                forall|j: int, ck: (u8, u8)|
                    0 <= j < seen && #[trigger] book.rooms@[(*sn[j].0).0].nouns@[(*sn[j].0).1].conversations@.contains_key(ck)
                        ==> index@.contains_key(((*sn[j].0).0, (*sn[j].0).1, ck.0, ck.1)),
                forall|t: int| 0 <= t < inner ==> #[trigger] index@.contains_key((rnum, nnum, (*sc[t].0).0, (*sc[t].0).1)),
                sn.no_duplicates(),
                sc.no_duplicates(),
                0 <= seen < sn.len(),
                sn[seen] == (noun_key, noun_position),
                *noun_key == (rnum, nnum),
                forall|j: int|
                    #![trigger sn[j]]
                    0 <= j < sn.len() ==> noun_index@.contains_key(*sn[j].0) && noun_index@[*sn[j].0]
                        == *sn[j].1,
                forall|q: (u16, u8, u8, u8)|
                    #[trigger] index@.contains_key(q) ==> (exists|j: int| 0 <= j < seen && *sn[j].0 == (q.0, q.1))
                        || ((q.0, q.1) == (rnum, nnum) && exists|t: int| 0 <= t < inner && *sc[t].0 == (q.2, q.3)),
                forall|p: int| 0 <= p < items@.len() ==> #[trigger] has_key_at(index@, p),
        {
            assert(sc[inner] == (ckey, conv));
            let vnum = ckey.0;
            let cnum = ckey.1;
            let ghost q = (rnum, nnum, vnum, cnum);
            assert(book_has_conv(*book, q));
            let verb = if vnum == 0 {
                None
            } else {
                match verb_index.get(&vnum) {
                    Some(v) => Some(VerbIndex(*v)),
                    None => {
                        proof {
                            assert(false);
                        }
                        None
                    },
                }
            };
            let condition = if cnum == 0 {
                None
            } else {
                match condition_index.get(&(rnum, cnum)) {
                    Some(c) => Some(ConditionIndex(*c)),
                    None => {
                        proof {
                            assert(false);
                        }
                        None
                    },
                }
            };
            assert(forall|j: int| 0 <= j < seen ==> *sn[j].0 != (rnum, nnum)) by {
                assert forall|j: int| 0 <= j < seen implies *sn[j].0 != (rnum, nnum) by {
                    if *sn[j].0 == (rnum, nnum) {
                        assert(noun_index@[*sn[j].0] == *sn[j].1);
                        assert(sn[j] == sn[seen]);
                    }
                }
            }
            assert(forall|t: int| 0 <= t < inner ==> *sc[t].0 != (vnum, cnum)) by {
                assert forall|t: int| 0 <= t < inner implies *sc[t].0 != (vnum, cnum) by {
                    if *sc[t].0 == (vnum, cnum) {
                        assert(noun.conversations@[*sc[t].0] == *sc[t].1);
                        assert(sc[t] == sc[inner]);
                    }
                }
            }
            assert(!index@.contains_key((rnum, nnum, vnum, cnum)));
            let ghost old_index = index@;
            let position = items.len();
            items.push(
                ConversationItem {
                    id: String::new(),
                    verb,
                    condition,
                    parent_noun: NounIndex(*noun_position),
                },
            );
            index.insert((rnum, nnum, vnum, cnum), position);
            proof {
                assert(conv_item_for(items@[position as int], q, verb_index@, condition_index@, noun_index@));
                assert(conv_item_ok(
                    *book,
                    items@[position as int],
                    verb_index@,
                    condition_index@,
                    noun_index@,
                ));
                assert forall|p: int| 0 <= p < items@.len() implies #[trigger] has_key_at(index@, p) by {
                    if p < position {
                        assert(has_key_at(old_index, p));
                        let k = choose|k: (u16, u8, u8, u8)| #[trigger] old_index.contains_key(k) && old_index[k] == p;
                        assert(index@.contains_key(k) && index@[k] == p);
                    } else {
                        assert(index@.contains_key((rnum, nnum, vnum, cnum)) && index@[(rnum, nnum, vnum, cnum)] == p);
                    }
                }
                assert forall|k: (u16, u8, u8, u8)|
                    #[trigger] index@.contains_key(k) implies (exists|j: int| 0 <= j < seen && *sn[j].0 == (k.0, k.1))
                        || ((k.0, k.1) == (rnum, nnum) && exists|t: int| 0 <= t < inner + 1 && *sc[t].0 == (k.2, k.3)) by {
                    if k == (rnum, nnum, vnum, cnum) {
                        assert(*sc[inner].0 == (k.2, k.3));
                    } else if !(exists|j: int| 0 <= j < seen && *sn[j].0 == (k.0, k.1)) {
                        let t = choose|t: int| 0 <= t < inner && *sc[t].0 == (k.2, k.3);
                        assert(0 <= t < inner + 1);
                    }
                }
                inner = inner + 1;
            }
        }
        proof {
            assert forall|j: int, ck: (u8, u8)|
                0 <= j < seen + 1 && #[trigger] book.rooms@[(*sn[j].0).0].nouns@[(*sn[j].0).1].conversations@.contains_key(ck)
                    implies index@.contains_key(((*sn[j].0).0, (*sn[j].0).1, ck.0, ck.1)) by {
                if j == seen {
                    assert(sc.contains((&ck, &noun.conversations@[ck])));
                    let t = choose|t: int| 0 <= t < sc.len() && sc[t] == (&ck, &noun.conversations@[ck]);
                    assert(index@.contains_key((rnum, nnum, (*sc[t].0).0, (*sc[t].0).1)));
                }
            }
            assert forall|k: (u16, u8, u8, u8)|
                #[trigger] index@.contains_key(k) implies exists|j: int| 0 <= j < seen + 1 && *sn[j].0 == (k.0, k.1) by {
                if !(exists|j: int| 0 <= j < seen && *sn[j].0 == (k.0, k.1)) {
                    assert(*sn[seen].0 == (k.0, k.1));
                }
            }
            seen = seen + 1;
        }
    }
    proof {
        assert forall|q: (u16, u8, u8, u8)| #[trigger] book_has_conv(*book, q) implies index@.contains_key(q) by {
            let nk = (q.0, q.1);
            assert(noun_index@.contains_key(nk));
            assert(sn.contains((&nk, &noun_index@[nk])));
            let j = choose|j: int| 0 <= j < sn.len() && sn[j] == (&nk, &noun_index@[nk]);
            assert(book.rooms@[(*sn[j].0).0].nouns@[(*sn[j].0).1].conversations@.contains_key((q.2, q.3)));
        }
    }
    (items, index)
}

/// Whether the book has the line `n` of the conversation `q`.
pub open spec fn book_has_line(book: Book, q: (u16, u8, u8, u8), n: u8) -> bool {
    book_has_conv(book, q) && book.rooms@[q.0].nouns@[q.1].conversations@[(q.2, q.3)].lines@.contains_key(n)
}

/// The line `n` of the conversation `q` of the book.
pub open spec fn book_line(book: Book, q: (u16, u8, u8, u8), n: u8) -> LineEntry {
    book.rooms@[q.0].nouns@[q.1].conversations@[(q.2, q.3)].lines@[n]
}

/// Whether every line's role is a role of the book.
pub open spec fn line_roles_known(book: Book) -> bool {
    forall|q: (u16, u8, u8, u8), n: u8|
        #[trigger] book_has_line(book, q, n) ==> lookup(roles_model(book.roles@), book_line(book, q, n).role.0@) is Some
}

/// The runs of a line's text as the format holds them: one empty plain run
/// for text without runs.
pub open spec fn formatted_text(runs: Seq<(Seq<char>, crate::book::rich_text::TextStyle)>) -> Seq<
    (Seq<char>, crate::book::rich_text::TextStyle),
> {
    if runs.len() == 0 {
        seq![(Seq::<char>::empty(), plain_style())]
    } else {
        runs
    }
}

/// Whether a line item stands for the line `n` of the conversation `q`:
/// under the conversation's item, with the line's number, talker, role and
/// text.
pub open spec fn line_item_for(
    book: Book,
    item: LineItem,
    q: (u16, u8, u8, u8),
    n: u8,
    conversation_index: Map<(u16, u8, u8, u8), usize>,
) -> bool {
    let line = book_line(book, q, n);
    &&& conversation_index.contains_key(q)
    &&& item.parent_conversation.0 == conversation_index[q]
    &&& item.num == n
    &&& item.talker_num == line.talker.0
    &&& item.role.0 < book.roles@.len()
    &&& book.roles@[item.role.0 as int].0@ == line.role.0@
    &&& line_text_model(item.text) == formatted_text(line.text@)
}

/// Whether a line item stands for a line of the book.
pub open spec fn line_item_ok(
    book: Book,
    item: LineItem,
    conversation_index: Map<(u16, u8, u8, u8), usize>,
) -> bool {
    exists|q: (u16, u8, u8, u8), n: u8|
        #[trigger] book_has_line(book, q, n) && line_item_for(book, item, q, n, conversation_index)
}

/// The position of the role `raw` among the book's roles.
fn role_position(book: &Book, raw: &str) -> (p: Option<usize>)
    ensures
        match p {
            Some(i) => i < book.roles@.len() && book.roles@[i as int].0@ == raw@,
            None => lookup(roles_model(book.roles@), raw@) is None,
        },
{
    let mut i: usize = 0;
    while i < book.roles.len()
        invariant
            i <= book.roles@.len(),
            forall|j: int| 0 <= j < i ==> book.roles@[j].0@ != raw@,
        decreases book.roles@.len() - i,
    {
        if str_eq(book.roles[i].0.as_str(), raw) {
            return Some(i);
        }
        i = i + 1;
    }
    proof {
        let rm = roles_model(book.roles@);
        assert forall|j: int| 0 <= j < rm.len() implies (#[trigger] rm[j]).0 != raw@ by {
            assert(rm[j].0 == book.roles@[j].0@);
        }
    }
    None
}

/// Lists the book's lines, conversation by conversation in the order of
/// their numbers and then by sequence number. The item's identifier is
/// left empty.
pub fn build_lines(book: &Book, conversation_index: &BTreeMap<(u16, u8, u8, u8), usize>) -> (items:
    Vec<LineItem>)
    requires
        line_roles_known(*book),
        forall|q: (u16, u8, u8, u8)|
            #[trigger] conversation_index@.contains_key(q) ==> book_has_conv(*book, q),
    ensures
        forall|i: int|
            0 <= i < items@.len() ==> line_item_ok(*book, #[trigger] items@[i], conversation_index@),
        forall|q: (u16, u8, u8, u8), n: u8|
            #[trigger] book_has_line(*book, q, n) && conversation_index@.contains_key(q) ==> exists|
                i: int,
            | 0 <= i < items@.len() && line_item_for(*book, #[trigger] items@[i], q, n, conversation_index@),
{
    let mut items: Vec<LineItem> = Vec::new();
    let ghost sq = vstd::std_specs::btree::spec_btree_map_iter(conversation_index).remaining();
    let ghost mut seen: int = 0;
    for (quad, conv_position) in it: conversation_index.iter()
        invariant
            it.seq() == sq,
            seen == it.index(),
            line_roles_known(*book),
            forall|q: (u16, u8, u8, u8)|
                #[trigger] conversation_index@.contains_key(q) ==> book_has_conv(*book, q),
            forall|j: int|
                #![trigger sq[j]]
                0 <= j < sq.len() ==> conversation_index@.contains_key(*sq[j].0)
                    && conversation_index@[*sq[j].0] == *sq[j].1,
            forall|i: int|
                0 <= i < items@.len() ==> line_item_ok(*book, #[trigger] items@[i], conversation_index@),
            forall|j: int, n: u8|
                0 <= j < seen && #[trigger] book_has_line(*book, *sq[j].0, n) ==> exists|i: int|
                    0 <= i < items@.len() && line_item_for(*book, #[trigger] items@[i], *sq[j].0, n, conversation_index@),
    {
        assert(sq[seen] == (quad, conv_position));
        let q = *quad;
        let room = match book.rooms.get(&q.0) {
            Some(room) => room,
            None => {
                proof {
                    assert(false);
                }
                return items;
            },
        };
        let noun = match room.nouns.get(&q.1) {
            Some(noun) => noun,
            None => {
                proof {
                    assert(false);
                }
                return items;
            },
        };
        let conv = match noun.conversations.get(&(q.2, q.3)) {
            Some(conv) => conv,
            None => {
                proof {
                    assert(false);
                }
                return items;
            },
        };
        let ghost sl = vstd::std_specs::btree::spec_btree_map_iter(&conv.lines).remaining();
        let ghost mut inner: int = 0;
        for (num, line) in it2: conv.lines.iter()
            invariant
                it2.seq() == sl,
                inner == it2.index(),
                line_roles_known(*book),
                book_has_conv(*book, q),
                book.rooms@[q.0].nouns@[q.1].conversations@[(q.2, q.3)] == *conv,
                conversation_index@.contains_key(q),
                conversation_index@[q] == *conv_position,
                forall|j: int|
                    #![trigger sl[j]]
                    0 <= j < sl.len() ==> conv.lines@.contains_key(*sl[j].0) && conv.lines@[*sl[j].0]
                        == *sl[j].1,
                forall|i: int|
                    0 <= i < items@.len() ==> line_item_ok(*book, #[trigger] items@[i], conversation_index@),
                forall|j: int, n: u8|
                    0 <= j < seen && #[trigger] book_has_line(*book, *sq[j].0, n) ==> exists|i: int|
                        0 <= i < items@.len() && line_item_for(*book, #[trigger] items@[i], *sq[j].0, n, conversation_index@),
                forall|t: int|
                    #![trigger sl[t]]
                    0 <= t < inner ==> exists|i: int|
                        0 <= i < items@.len() && line_item_for(*book, #[trigger] items@[i], q, *sl[t].0, conversation_index@),
        {
            assert(sl[inner] == (num, line));
            assert(book_has_line(*book, q, *num));
            assert(book_line(*book, q, *num) == *line);
            let role = match role_position(book, line.role.0.as_str()) {
                Some(p) => p,
                None => {
                    proof {
                        assert(false);
                    }
                    return items;
                },
            };
            let text = build_line_text(&line.text);
            let position = items.len();
            let ghost before = items@;
            items.push(
                LineItem {
                    id: String::new(),
                    num: *num,
                    talker_num: line.talker.0,
                    role: RoleIndex(role),
                    text,
                    parent_conversation: ConversationIndex(*conv_position),
                },
            );
            proof {
                assert(line_item_for(*book, items@[position as int], q, *num, conversation_index@));
                assert(line_item_ok(*book, items@[position as int], conversation_index@));
                assert forall|i: int| 0 <= i < before.len() implies items@[i] == before[i] by {}
                assert forall|j: int, n: u8|
                    0 <= j < seen && #[trigger] book_has_line(*book, *sq[j].0, n) implies exists|i: int|
                        0 <= i < items@.len() && line_item_for(*book, #[trigger] items@[i], *sq[j].0, n, conversation_index@) by {
                    let i = choose|i: int|
                        0 <= i < before.len() && line_item_for(*book, #[trigger] before[i], *sq[j].0, n, conversation_index@);
                    assert(items@[i] == before[i]);
                }
                assert forall|t: int|
                    #![trigger sl[t]]
                    0 <= t < inner + 1 implies exists|i: int|
                        0 <= i < items@.len() && line_item_for(*book, #[trigger] items@[i], q, *sl[t].0, conversation_index@) by {
                    if t == inner {
                        assert(line_item_for(*book, items@[position as int], q, *sl[t].0, conversation_index@));
                    } else {
                        let i = choose|i: int|
                            0 <= i < before.len() && line_item_for(*book, #[trigger] before[i], q, *sl[t].0, conversation_index@);
                        assert(items@[i] == before[i]);
                    }
                }
                inner = inner + 1;
            }
        }
        proof {
            assert forall|j: int, n: u8|
                0 <= j < seen + 1 && #[trigger] book_has_line(*book, *sq[j].0, n) implies exists|i: int|
                    0 <= i < items@.len() && line_item_for(*book, #[trigger] items@[i], *sq[j].0, n, conversation_index@) by {
                if j == seen {
                    assert(conv.lines@.contains_key(n));
                    assert(sl.contains((&n, &conv.lines@[n])));
                    let t = choose|t: int| 0 <= t < sl.len() && sl[t] == (&n, &conv.lines@[n]);
                    assert(*sl[t].0 == n);
                }
            }
        }
        proof {
            seen = seen + 1;
        }
    }
    proof {
        assert forall|q: (u16, u8, u8, u8), n: u8|
            #[trigger] book_has_line(*book, q, n) && conversation_index@.contains_key(q) implies exists|
                i: int,
            | 0 <= i < items@.len() && line_item_for(*book, #[trigger] items@[i], q, n, conversation_index@) by {
            assert(sq.contains((&q, &conversation_index@[q])));
            let j = choose|j: int| 0 <= j < sq.len() && sq[j] == (&q, &conversation_index@[q]);
            assert(book_has_line(*book, *sq[j].0, n));
        }
    }
    proof {
        assert forall|q: (u16, u8, u8, u8), n: u8|
            #[trigger] book_has_line(*book, q, n) && conversation_index@.contains_key(q) implies exists|
                i: int,
            | 0 <= i < items@.len() && line_item_for(*book, #[trigger] items@[i], q, n, conversation_index@) by {
            assert(sq.contains((&q, &conversation_index@[q])));
            let j = choose|j: int| 0 <= j < sq.len() && sq[j] == (&q, &conversation_index@[q]);
            assert(book_has_line(*book, *sq[j].0, n));
        }
    }
    items
}

/// Whether `f` is a flattening of `book`: the roles in their order, and
/// for every other kind of item, an item for each of the book's (and for
/// rooms, nouns and conversations, only one), each under the item of its
/// parent and with its data; lines name their role by its position.
pub open spec fn formats(book: Book, f: BookFormat) -> bool {
    &&& refs_in_range(f)
    &&& f.project_name@ == book.project_name@
    &&& f.roles@.len() == book.roles@.len()
    &&& forall|i: int|
            0 <= i < f.roles@.len() ==> {
                let item = #[trigger] f.roles@[i];
                &&& item.raw@ == book.roles@[i].0@
                &&& item.id@ == role_item_id(book.roles@[i].0@)
                &&& item.name@ == book.roles@[i].1.name@
                &&& item.short_name@ == book.roles@[i].1.short_name@
            }
    &&& forall|i: int|
            0 <= i < f.verbs@.len() ==> {
                let item = #[trigger] f.verbs@[i];
                &&& book.verbs@.contains_key(item.num)
                &&& item.name@ == book.verbs@[item.num].name@
                &&& item.id@ == verb_item_id(item.num)
            }
    &&& forall|k: u8|
            #[trigger] book.verbs@.contains_key(k) ==> exists|i: int|
                0 <= i < f.verbs@.len() && (#[trigger] f.verbs@[i]).num == k
    &&& forall|i: int|
            0 <= i < f.rooms@.len() ==> {
                let item = #[trigger] f.rooms@[i];
                &&& book.rooms@.contains_key(item.num)
                &&& opt_str(item.name) == opt_str(book.rooms@[item.num].name)
            }
    &&& forall|k: u16|
            #[trigger] book.rooms@.contains_key(k) ==> exists|i: int|
                0 <= i < f.rooms@.len() && (#[trigger] f.rooms@[i]).num == k
    &&& forall|i: int|
            0 <= i < f.conditions@.len() ==> {
                let item = #[trigger] f.conditions@[i];
                let room = room_num_at(f, item.parent_room.0 as int);
                &&& book.rooms@.contains_key(room)
                &&& book.rooms@[room].conditions@.contains_key(item.num)
                &&& opt_str(item.description) == opt_str(book.rooms@[room].conditions@[item.num].desc)
                &&& item.id@ == condition_item_id(room, item.num)
            }
    &&& forall|i: int|
            0 <= i < f.nouns@.len() ==> {
                let item = #[trigger] f.nouns@[i];
                let room = room_num_at(f, item.parent_room.0 as int);
                &&& book.rooms@.contains_key(room)
                &&& book.rooms@[room].nouns@.contains_key(item.num)
                &&& opt_str(item.description) == opt_str(book.rooms@[room].nouns@[item.num].desc)
                &&& item.is_cutscene == book.rooms@[room].nouns@[item.num].is_cutscene
            }
    &&& forall|i: int|
            0 <= i < f.conversations@.len() ==> #[trigger] book_has_conv(book, conv_quad_at(f, i))
    &&& forall|q: (u16, u8, u8, u8)|
            #[trigger] book_has_conv(book, q) ==> exists|i: int|
                0 <= i < f.conversations@.len() && #[trigger] conv_quad_at(f, i) == q
    &&& forall|i: int|
            0 <= i < f.lines@.len() ==> {
                let item = #[trigger] f.lines@[i];
                let q = conv_quad_at(f, item.parent_conversation.0 as int);
                let line = book_line(book, q, item.num);
                &&& book_has_line(book, q, item.num)
                &&& item.talker_num == line.talker.0
                &&& f.roles@[item.role.0 as int].raw@ == line.role.0@
                &&& line_text_model(item.text) == formatted_text(line.text@)
            }
    &&& forall|q: (u16, u8, u8, u8), n: u8|
            #[trigger] book_has_line(book, q, n) ==> exists|i: int|
                0 <= i < f.lines@.len() && conv_quad_at(f, (#[trigger] f.lines@[i]).parent_conversation.0 as int)
                    == q && f.lines@[i].num == n
    &&& forall|room: u16, c: u8|
            book.rooms@.contains_key(room) && #[trigger] book.rooms@[room].conditions@.contains_key(c)
                ==> exists|i: int|
                0 <= i < f.conditions@.len() && room_num_at(f, (#[trigger] f.conditions@[i]).parent_room.0 as int)
                    == room && f.conditions@[i].num == c
    &&& forall|room: u16, n: u8|
            book.rooms@.contains_key(room) && #[trigger] book.rooms@[room].nouns@.contains_key(n)
                ==> exists|i: int| 0 <= i < f.nouns@.len() && #[trigger] noun_pair_at(f, i) == (room, n)
    &&& forall|i: int, j: int| 0 <= i < j < f.rooms@.len() ==> f.rooms@[i].num != f.rooms@[j].num
    &&& forall|i: int, j: int| 0 <= i < j < f.nouns@.len() ==> noun_pair_at(f, i) != noun_pair_at(f, j)
    &&& forall|i: int, j: int|
            0 <= i < j < f.conversations@.len() ==> conv_quad_at(f, i) != conv_quad_at(f, j)
}

/// Flattens a book into its file format: its roles in their order, its
/// verbs and rooms in the order of their numbers, then its conditions,
/// nouns, conversations and lines under the items of their parents.
///
/// Roles are named `role-` and their identifier, verbs `verb-` and their
/// number, conditions `condition-`, their room's number, `-` and their
/// number; rooms, nouns, conversations and lines get an empty name.
pub fn format_book(book: &Book) -> (f: BookFormat)
    requires
        conversations_consistent(*book),
        line_roles_known(*book),
    ensures
        formats(*book, f),
{
    let roles = build_roles(book);
    let (verbs, verb_index) = build_verbs(book);
    let (rooms, room_index) = build_rooms(book);
    let (conditions, condition_index) = build_conditions(book, &room_index);
    let (nouns, noun_index) = build_nouns(book, &room_index);
    let (conversations, conversation_index) = build_conversations(
        book,
        &verb_index,
        &condition_index,
        &noun_index,
    );
    let lines = build_lines(book, &conversation_index);
    let ghost lines_view = lines@;
    let f = BookFormat {
        project_name: book.project_name.clone(),
        roles,
        verbs,
        rooms,
        conditions,
        nouns,
        conversations,
        lines,
    };
    proof {
        assert(f.lines@ == lines_view);
        lemma_format_facts(*book, f, verb_index@, room_index@, condition_index@, noun_index@, conversation_index@);
        lemma_format_complete_distinct(
            *book,
            f,
            verb_index@,
            room_index@,
            condition_index@,
            noun_index@,
            conversation_index@,
        );
    }
    f
}

/// The item at the index of a room's number is that room's.
proof fn lemma_room_at(f: BookFormat, ri: Map<u16, usize>, r: u16)
    requires
        indexes(ri, f.rooms@, |v: RoomItem| v.num),
        ri.contains_key(r),
    ensures
        ri[r] < f.rooms@.len(),
        room_num_at(f, ri[r] as int) == r,
{
}

/// The item at the index of a noun's numbers is that noun's.
proof fn lemma_noun_at(f: BookFormat, ri: Map<u16, usize>, ni: Map<(u16, u8), usize>, k: (u16, u8))
    requires
        indexes(ri, f.rooms@, |v: RoomItem| v.num),
        indexes_in_rooms(ni, f.nouns@, |c: NounItem| c.num, |c: NounItem| c.parent_room.0, ri),
        ni.contains_key(k),
    ensures
        ni[k] < f.nouns@.len(),
        f.nouns@[ni[k] as int].parent_room.0 < f.rooms@.len(),
        noun_pair_at(f, ni[k] as int) == k,
{
    lemma_room_at(f, ri, k.0);
}

/// A conversation item that stands for `q` has the numbers `q`.
proof fn lemma_conv_at(
    f: BookFormat,
    vi: Map<u8, usize>,
    ri: Map<u16, usize>,
    ci: Map<(u16, u8), usize>,
    ni: Map<(u16, u8), usize>,
    i: int,
    q: (u16, u8, u8, u8),
)
    requires
        indexes(vi, f.verbs@, |v: VerbItem| v.num),
        indexes(ri, f.rooms@, |v: RoomItem| v.num),
        indexes_in_rooms(ci, f.conditions@, |c: ConditionItem| c.num, |c: ConditionItem| c.parent_room.0, ri),
        indexes_in_rooms(ni, f.nouns@, |c: NounItem| c.num, |c: NounItem| c.parent_room.0, ri),
        0 <= i < f.conversations@.len(),
        conv_item_for(f.conversations@[i], q, vi, ci, ni),
    ensures
        f.conversations@[i].parent_noun.0 < f.nouns@.len(),
        f.conversations@[i].verb matches Some(v) ==> v.0 < f.verbs@.len(),
        f.conversations@[i].condition matches Some(c) ==> c.0 < f.conditions@.len(),
        conv_quad_at(f, i) == q,
{
    let item = f.conversations@[i];
    lemma_noun_at(f, ri, ni, (q.0, q.1));
    match item.condition {
        Some(c) => {
            lemma_room_at(f, ri, q.0);
        },
        None => {},
    }
}

/// The verbs, rooms, conditions and nouns of the flat format that the
/// builders' results give.
proof fn lemma_format_places(
    book: Book,
    f: BookFormat,
    vi: Map<u8, usize>,
    ri: Map<u16, usize>,
    ci: Map<(u16, u8), usize>,
    ni: Map<(u16, u8), usize>,
    qi: Map<(u16, u8, u8, u8), usize>,
)
    requires
        indexes(vi, f.verbs@, |v: VerbItem| v.num),
        forall|k: u8| #[trigger] book.verbs@.contains_key(k) ==> vi.contains_key(k),
        indexes(ri, f.rooms@, |v: RoomItem| v.num),
        forall|k: u16| #[trigger] book.rooms@.contains_key(k) ==> ri.contains_key(k),
        forall|i: int| 0 <= i < f.conditions@.len() ==> condition_item_ok(book, ri, #[trigger] f.conditions@[i]),
        indexes_in_rooms(ci, f.conditions@, |c: ConditionItem| c.num, |c: ConditionItem| c.parent_room.0, ri),
        forall|i: int| 0 <= i < f.nouns@.len() ==> noun_item_ok(book, ri, #[trigger] f.nouns@[i]),
        indexes_in_rooms(ni, f.nouns@, |c: NounItem| c.num, |c: NounItem| c.parent_room.0, ri),
        forall|i: int|
            0 <= i < f.conversations@.len() ==> conv_item_ok(book, #[trigger] f.conversations@[i], vi, ci, ni),
        forall|q: (u16, u8, u8, u8)|
            #[trigger] qi.contains_key(q) ==> qi[q] < f.conversations@.len() && book_has_conv(book, q)
                && conv_item_for(f.conversations@[qi[q] as int], q, vi, ci, ni),
        forall|q: (u16, u8, u8, u8)| #[trigger] book_has_conv(book, q) ==> qi.contains_key(q),
        forall|i: int| 0 <= i < f.lines@.len() ==> line_item_ok(book, #[trigger] f.lines@[i], qi),
        forall|q: (u16, u8, u8, u8), n: u8|
            #[trigger] book_has_line(book, q, n) && qi.contains_key(q) ==> exists|i: int|
                0 <= i < f.lines@.len() && line_item_for(book, #[trigger] f.lines@[i], q, n, qi),
        f.roles@.len() == book.roles@.len(),
        forall|i: int| 0 <= i < f.roles@.len() ==> (#[trigger] f.roles@[i]).raw@ == book.roles@[i].0@,
    ensures
        forall|k: u8|
            #[trigger] book.verbs@.contains_key(k) ==> exists|i: int|
                0 <= i < f.verbs@.len() && (#[trigger] f.verbs@[i]).num == k,
        forall|k: u16|
            #[trigger] book.rooms@.contains_key(k) ==> exists|i: int|
                0 <= i < f.rooms@.len() && (#[trigger] f.rooms@[i]).num == k,
        forall|i: int|
            0 <= i < f.conditions@.len() ==> {
                let item = #[trigger] f.conditions@[i];
                let room = room_num_at(f, item.parent_room.0 as int);
                &&& book.rooms@.contains_key(room)
                &&& book.rooms@[room].conditions@.contains_key(item.num)
                &&& opt_str(item.description) == opt_str(book.rooms@[room].conditions@[item.num].desc)
                &&& item.id@ == condition_item_id(room, item.num)
            },
        forall|i: int|
            0 <= i < f.nouns@.len() ==> {
                let item = #[trigger] f.nouns@[i];
                let room = room_num_at(f, item.parent_room.0 as int);
                &&& book.rooms@.contains_key(room)
                &&& book.rooms@[room].nouns@.contains_key(item.num)
                &&& opt_str(item.description) == opt_str(book.rooms@[room].nouns@[item.num].desc)
                &&& item.is_cutscene == book.rooms@[room].nouns@[item.num].is_cutscene
            },
{
    assert forall|k: u8| #[trigger] book.verbs@.contains_key(k) implies exists|i: int|
        0 <= i < f.verbs@.len() && (#[trigger] f.verbs@[i]).num == k by {
        let i = vi[k] as int;
        assert(f.verbs@[i].num == k);
    }
    assert forall|k: u16| #[trigger] book.rooms@.contains_key(k) implies exists|i: int|
        0 <= i < f.rooms@.len() && (#[trigger] f.rooms@[i]).num == k by {
        lemma_room_at(f, ri, k);
        let i = ri[k] as int;
        assert(f.rooms@[i].num == k);
    }
    assert forall|i: int| 0 <= i < f.conditions@.len() implies {
        let item = #[trigger] f.conditions@[i];
        let room = room_num_at(f, item.parent_room.0 as int);
        &&& item.parent_room.0 < f.rooms@.len()
        &&& book.rooms@.contains_key(room)
        &&& book.rooms@[room].conditions@.contains_key(item.num)
        &&& opt_str(item.description) == opt_str(book.rooms@[room].conditions@[item.num].desc)
        &&& item.id@ == condition_item_id(room, item.num)
    } by {
        let item = f.conditions@[i];
        assert(condition_item_ok(book, ri, item));
        let room = choose|room: u16|
            #![trigger ri[room]]
            {
                &&& book.rooms@.contains_key(room)
                &&& ri[room] == item.parent_room.0
                &&& book.rooms@[room].conditions@.contains_key(item.num)
                &&& opt_str(item.description) == opt_str(book.rooms@[room].conditions@[item.num].desc)
                &&& item.id@ == condition_item_id(room, item.num)
            };
        lemma_room_at(f, ri, room);
    }
    assert forall|i: int| 0 <= i < f.nouns@.len() implies {
        let item = #[trigger] f.nouns@[i];
        let room = room_num_at(f, item.parent_room.0 as int);
        &&& item.parent_room.0 < f.rooms@.len()
        &&& book.rooms@.contains_key(room)
        &&& book.rooms@[room].nouns@.contains_key(item.num)
        &&& opt_str(item.description) == opt_str(book.rooms@[room].nouns@[item.num].desc)
        &&& item.is_cutscene == book.rooms@[room].nouns@[item.num].is_cutscene
    } by {
        let item = f.nouns@[i];
        assert(noun_item_ok(book, ri, item));
        let room = choose|room: u16|
            #![trigger ri[room]]
            {
                &&& book.rooms@.contains_key(room)
                &&& ri[room] == item.parent_room.0
                &&& book.rooms@[room].nouns@.contains_key(item.num)
                &&& opt_str(item.description) == opt_str(book.rooms@[room].nouns@[item.num].desc)
                &&& item.is_cutscene == book.rooms@[room].nouns@[item.num].is_cutscene
            };
        lemma_room_at(f, ri, room);
    }
}

/// The conversations of the flat format that the builders' results give.
proof fn lemma_format_conversations(
    book: Book,
    f: BookFormat,
    vi: Map<u8, usize>,
    ri: Map<u16, usize>,
    ci: Map<(u16, u8), usize>,
    ni: Map<(u16, u8), usize>,
    qi: Map<(u16, u8, u8, u8), usize>,
)
    requires
        indexes(vi, f.verbs@, |v: VerbItem| v.num),
        forall|k: u8| #[trigger] book.verbs@.contains_key(k) ==> vi.contains_key(k),
        indexes(ri, f.rooms@, |v: RoomItem| v.num),
        forall|k: u16| #[trigger] book.rooms@.contains_key(k) ==> ri.contains_key(k),
        forall|i: int| 0 <= i < f.conditions@.len() ==> condition_item_ok(book, ri, #[trigger] f.conditions@[i]),
        indexes_in_rooms(ci, f.conditions@, |c: ConditionItem| c.num, |c: ConditionItem| c.parent_room.0, ri),
        forall|i: int| 0 <= i < f.nouns@.len() ==> noun_item_ok(book, ri, #[trigger] f.nouns@[i]),
        indexes_in_rooms(ni, f.nouns@, |c: NounItem| c.num, |c: NounItem| c.parent_room.0, ri),
        forall|i: int|
            0 <= i < f.conversations@.len() ==> conv_item_ok(book, #[trigger] f.conversations@[i], vi, ci, ni),
        forall|q: (u16, u8, u8, u8)|
            #[trigger] qi.contains_key(q) ==> qi[q] < f.conversations@.len() && book_has_conv(book, q)
                && conv_item_for(f.conversations@[qi[q] as int], q, vi, ci, ni),
        forall|q: (u16, u8, u8, u8)| #[trigger] book_has_conv(book, q) ==> qi.contains_key(q),
        forall|i: int| 0 <= i < f.lines@.len() ==> line_item_ok(book, #[trigger] f.lines@[i], qi),
        forall|q: (u16, u8, u8, u8), n: u8|
            #[trigger] book_has_line(book, q, n) && qi.contains_key(q) ==> exists|i: int|
                0 <= i < f.lines@.len() && line_item_for(book, #[trigger] f.lines@[i], q, n, qi),
        f.roles@.len() == book.roles@.len(),
        forall|i: int| 0 <= i < f.roles@.len() ==> (#[trigger] f.roles@[i]).raw@ == book.roles@[i].0@,
    ensures
        forall|i: int|
            0 <= i < f.conversations@.len() ==> #[trigger] book_has_conv(book, conv_quad_at(f, i)),
        forall|q: (u16, u8, u8, u8)|
            #[trigger] book_has_conv(book, q) ==> exists|i: int|
                0 <= i < f.conversations@.len() && #[trigger] conv_quad_at(f, i) == q,
{
    assert forall|i: int| 0 <= i < f.conversations@.len() implies {
        &&& f.conversations@[i].parent_noun.0 < f.nouns@.len()
        &&& f.conversations@[i].verb matches Some(v) ==> v.0 < f.verbs@.len()
        &&& f.conversations@[i].condition matches Some(c) ==> c.0 < f.conditions@.len()
        &&& #[trigger] book_has_conv(book, conv_quad_at(f, i))
    } by {
        assert(conv_item_ok(book, f.conversations@[i], vi, ci, ni));
        let q = choose|q: (u16, u8, u8, u8)|
            #[trigger] book_has_conv(book, q) && conv_item_for(f.conversations@[i], q, vi, ci, ni);
        lemma_conv_at(f, vi, ri, ci, ni, i, q);
    }
    assert forall|q: (u16, u8, u8, u8)| #[trigger] book_has_conv(book, q) implies exists|i: int|
        0 <= i < f.conversations@.len() && #[trigger] conv_quad_at(f, i) == q by {
        let i = qi[q] as int;
        lemma_conv_at(f, vi, ri, ci, ni, i, q);
    }
}

/// The line item at `i` stands for a line of the book, under the item of
/// that line's conversation.
proof fn lemma_line_at(
    book: Book,
    f: BookFormat,
    vi: Map<u8, usize>,
    ri: Map<u16, usize>,
    ci: Map<(u16, u8), usize>,
    ni: Map<(u16, u8), usize>,
    qi: Map<(u16, u8, u8, u8), usize>,
    i: int,
    q: (u16, u8, u8, u8),
    n: u8,
)
    requires
        indexes(vi, f.verbs@, |v: VerbItem| v.num),
        indexes(ri, f.rooms@, |v: RoomItem| v.num),
        indexes_in_rooms(ci, f.conditions@, |c: ConditionItem| c.num, |c: ConditionItem| c.parent_room.0, ri),
        indexes_in_rooms(ni, f.nouns@, |c: NounItem| c.num, |c: NounItem| c.parent_room.0, ri),
        qi.contains_key(q),
        qi[q] < f.conversations@.len(),
        conv_item_for(f.conversations@[qi[q] as int], q, vi, ci, ni),
        0 <= i < f.lines@.len(),
        book_has_line(book, q, n),
        line_item_for(book, f.lines@[i], q, n, qi),
        f.roles@.len() == book.roles@.len(),
        f.roles@[f.lines@[i].role.0 as int].raw@ == book.roles@[f.lines@[i].role.0 as int].0@,
    ensures
        f.lines@[i].parent_conversation.0 < f.conversations@.len(),
        f.lines@[i].role.0 < f.roles@.len(),
        conv_quad_at(f, f.lines@[i].parent_conversation.0 as int) == q,
        f.lines@[i].num == n,
        f.lines@[i].talker_num == book_line(book, q, n).talker.0,
        f.roles@[f.lines@[i].role.0 as int].raw@ == book_line(book, q, n).role.0@,
        line_text_model(f.lines@[i].text) == formatted_text(book_line(book, q, n).text@),
{
    lemma_conv_at(f, vi, ri, ci, ni, qi[q] as int, q);
}

/// Each line item stands for a line of the book.
proof fn lemma_lines_sound(
    book: Book,
    f: BookFormat,
    vi: Map<u8, usize>,
    ri: Map<u16, usize>,
    ci: Map<(u16, u8), usize>,
    ni: Map<(u16, u8), usize>,
    qi: Map<(u16, u8, u8, u8), usize>,
)
    requires
        indexes(vi, f.verbs@, |v: VerbItem| v.num),
        indexes(ri, f.rooms@, |v: RoomItem| v.num),
        indexes_in_rooms(ci, f.conditions@, |c: ConditionItem| c.num, |c: ConditionItem| c.parent_room.0, ri),
        indexes_in_rooms(ni, f.nouns@, |c: NounItem| c.num, |c: NounItem| c.parent_room.0, ri),
        forall|q: (u16, u8, u8, u8)|
            #[trigger] qi.contains_key(q) ==> qi[q] < f.conversations@.len() && book_has_conv(book, q)
                && conv_item_for(f.conversations@[qi[q] as int], q, vi, ci, ni),
        f.roles@.len() == book.roles@.len(),
        forall|i: int| 0 <= i < f.roles@.len() ==> (#[trigger] f.roles@[i]).raw@ == book.roles@[i].0@,
        forall|i: int| 0 <= i < f.lines@.len() ==> line_item_ok(book, #[trigger] f.lines@[i], qi),
    ensures
        forall|i: int|
            0 <= i < f.lines@.len() ==> {
                let item = #[trigger] f.lines@[i];
                let q = conv_quad_at(f, item.parent_conversation.0 as int);
                let line = book_line(book, q, item.num);
                &&& item.parent_conversation.0 < f.conversations@.len()
                &&& item.role.0 < f.roles@.len()
                &&& book_has_line(book, q, item.num)
                &&& item.talker_num == line.talker.0
                &&& f.roles@[item.role.0 as int].raw@ == line.role.0@
                &&& line_text_model(item.text) == formatted_text(line.text@)
            },
{
    assert forall|i: int| 0 <= i < f.lines@.len() implies {
        let item = #[trigger] f.lines@[i];
        let q = conv_quad_at(f, item.parent_conversation.0 as int);
        let line = book_line(book, q, item.num);
        &&& item.parent_conversation.0 < f.conversations@.len()
        &&& item.role.0 < f.roles@.len()
        &&& book_has_line(book, q, item.num)
        &&& item.talker_num == line.talker.0
        &&& f.roles@[item.role.0 as int].raw@ == line.role.0@
        &&& line_text_model(item.text) == formatted_text(line.text@)
    } by {
        assert(line_item_ok(book, f.lines@[i], qi));
        let (q, n) = choose|q: (u16, u8, u8, u8), n: u8|
            #[trigger] book_has_line(book, q, n) && line_item_for(book, f.lines@[i], q, n, qi);
        let r = f.lines@[i].role.0 as int;
        assert(f.roles@[r].raw@ == book.roles@[r].0@);
        lemma_line_at(book, f, vi, ri, ci, ni, qi, i, q, n);
    }
}

/// Each line of the book has a line item.
proof fn lemma_lines_complete(
    book: Book,
    f: BookFormat,
    vi: Map<u8, usize>,
    ri: Map<u16, usize>,
    ci: Map<(u16, u8), usize>,
    ni: Map<(u16, u8), usize>,
    qi: Map<(u16, u8, u8, u8), usize>,
)
    requires
        indexes(vi, f.verbs@, |v: VerbItem| v.num),
        indexes(ri, f.rooms@, |v: RoomItem| v.num),
        indexes_in_rooms(ci, f.conditions@, |c: ConditionItem| c.num, |c: ConditionItem| c.parent_room.0, ri),
        indexes_in_rooms(ni, f.nouns@, |c: NounItem| c.num, |c: NounItem| c.parent_room.0, ri),
        forall|q: (u16, u8, u8, u8)|
            #[trigger] qi.contains_key(q) ==> qi[q] < f.conversations@.len() && book_has_conv(book, q)
                && conv_item_for(f.conversations@[qi[q] as int], q, vi, ci, ni),
        f.roles@.len() == book.roles@.len(),
        forall|i: int| 0 <= i < f.roles@.len() ==> (#[trigger] f.roles@[i]).raw@ == book.roles@[i].0@,
        forall|q: (u16, u8, u8, u8)| #[trigger] book_has_conv(book, q) ==> qi.contains_key(q),
        forall|q: (u16, u8, u8, u8), n: u8|
            #[trigger] book_has_line(book, q, n) && qi.contains_key(q) ==> exists|i: int|
                0 <= i < f.lines@.len() && line_item_for(book, #[trigger] f.lines@[i], q, n, qi),
    ensures
        forall|q: (u16, u8, u8, u8), n: u8|
            #[trigger] book_has_line(book, q, n) ==> exists|i: int|
                0 <= i < f.lines@.len() && conv_quad_at(f, (#[trigger] f.lines@[i]).parent_conversation.0 as int)
                    == q && f.lines@[i].num == n,
{
    assert forall|q: (u16, u8, u8, u8), n: u8| #[trigger] book_has_line(book, q, n) implies exists|i: int|
        0 <= i < f.lines@.len() && conv_quad_at(f, (#[trigger] f.lines@[i]).parent_conversation.0 as int)
            == q && f.lines@[i].num == n by {
        assert(book_has_conv(book, q));
        assert(qi.contains_key(q));
        let i = choose|i: int| 0 <= i < f.lines@.len() && line_item_for(book, #[trigger] f.lines@[i], q, n, qi);
        let r = f.lines@[i].role.0 as int;
        assert(f.roles@[r].raw@ == book.roles@[r].0@);
        lemma_line_at(book, f, vi, ri, ci, ni, qi, i, q, n);
    }
}

/// The facts of the flat format that the builders' results give.
proof fn lemma_format_facts(
    book: Book,
    f: BookFormat,
    vi: Map<u8, usize>,
    ri: Map<u16, usize>,
    ci: Map<(u16, u8), usize>,
    ni: Map<(u16, u8), usize>,
    qi: Map<(u16, u8, u8, u8), usize>,
)
    requires
        indexes(vi, f.verbs@, |v: VerbItem| v.num),
        forall|k: u8| #[trigger] book.verbs@.contains_key(k) ==> vi.contains_key(k),
        indexes(ri, f.rooms@, |v: RoomItem| v.num),
        forall|k: u16| #[trigger] book.rooms@.contains_key(k) ==> ri.contains_key(k),
        forall|i: int| 0 <= i < f.conditions@.len() ==> condition_item_ok(book, ri, #[trigger] f.conditions@[i]),
        indexes_in_rooms(ci, f.conditions@, |c: ConditionItem| c.num, |c: ConditionItem| c.parent_room.0, ri),
        forall|i: int| 0 <= i < f.nouns@.len() ==> noun_item_ok(book, ri, #[trigger] f.nouns@[i]),
        indexes_in_rooms(ni, f.nouns@, |c: NounItem| c.num, |c: NounItem| c.parent_room.0, ri),
        forall|i: int|
            0 <= i < f.conversations@.len() ==> conv_item_ok(book, #[trigger] f.conversations@[i], vi, ci, ni),
        forall|q: (u16, u8, u8, u8)|
            #[trigger] qi.contains_key(q) ==> qi[q] < f.conversations@.len() && book_has_conv(book, q)
                && conv_item_for(f.conversations@[qi[q] as int], q, vi, ci, ni),
        forall|q: (u16, u8, u8, u8)| #[trigger] book_has_conv(book, q) ==> qi.contains_key(q),
        forall|i: int| 0 <= i < f.lines@.len() ==> line_item_ok(book, #[trigger] f.lines@[i], qi),
        forall|q: (u16, u8, u8, u8), n: u8|
            #[trigger] book_has_line(book, q, n) && qi.contains_key(q) ==> exists|i: int|
                0 <= i < f.lines@.len() && line_item_for(book, #[trigger] f.lines@[i], q, n, qi),
        f.roles@.len() == book.roles@.len(),
        forall|i: int| 0 <= i < f.roles@.len() ==> (#[trigger] f.roles@[i]).raw@ == book.roles@[i].0@,
    ensures
        refs_in_range(f),
        forall|k: u8|
            #[trigger] book.verbs@.contains_key(k) ==> exists|i: int|
                0 <= i < f.verbs@.len() && (#[trigger] f.verbs@[i]).num == k,
        forall|k: u16|
            #[trigger] book.rooms@.contains_key(k) ==> exists|i: int|
                0 <= i < f.rooms@.len() && (#[trigger] f.rooms@[i]).num == k,
        forall|i: int|
            0 <= i < f.conditions@.len() ==> {
                let item = #[trigger] f.conditions@[i];
                let room = room_num_at(f, item.parent_room.0 as int);
                &&& book.rooms@.contains_key(room)
                &&& book.rooms@[room].conditions@.contains_key(item.num)
                &&& opt_str(item.description) == opt_str(book.rooms@[room].conditions@[item.num].desc)
                &&& item.id@ == condition_item_id(room, item.num)
            },
        forall|i: int|
            0 <= i < f.nouns@.len() ==> {
                let item = #[trigger] f.nouns@[i];
                let room = room_num_at(f, item.parent_room.0 as int);
                &&& book.rooms@.contains_key(room)
                &&& book.rooms@[room].nouns@.contains_key(item.num)
                &&& opt_str(item.description) == opt_str(book.rooms@[room].nouns@[item.num].desc)
                &&& item.is_cutscene == book.rooms@[room].nouns@[item.num].is_cutscene
            },
        forall|i: int|
            0 <= i < f.conversations@.len() ==> #[trigger] book_has_conv(book, conv_quad_at(f, i)),
        forall|q: (u16, u8, u8, u8)|
            #[trigger] book_has_conv(book, q) ==> exists|i: int|
                0 <= i < f.conversations@.len() && #[trigger] conv_quad_at(f, i) == q,
        forall|i: int|
            0 <= i < f.lines@.len() ==> {
                let item = #[trigger] f.lines@[i];
                let q = conv_quad_at(f, item.parent_conversation.0 as int);
                let line = book_line(book, q, item.num);
                &&& book_has_line(book, q, item.num)
                &&& item.talker_num == line.talker.0
                &&& f.roles@[item.role.0 as int].raw@ == line.role.0@
                &&& line_text_model(item.text) == formatted_text(line.text@)
            },
        forall|q: (u16, u8, u8, u8), n: u8|
            #[trigger] book_has_line(book, q, n) ==> exists|i: int|
                0 <= i < f.lines@.len() && conv_quad_at(f, (#[trigger] f.lines@[i]).parent_conversation.0 as int)
                    == q && f.lines@[i].num == n,
{
    lemma_format_places(book, f, vi, ri, ci, ni, qi);
    lemma_format_conversations(book, f, vi, ri, ci, ni, qi);
    lemma_lines_sound(book, f, vi, ri, ci, ni, qi);
    lemma_lines_complete(book, f, vi, ri, ci, ni, qi);
    assert forall|i: int| 0 <= i < f.conditions@.len() implies (#[trigger] f.conditions@[i]).parent_room.0 < f.rooms@.len() by {
        let item = f.conditions@[i];
        let room = choose|room: u16|
            #![trigger ri[room]]
            {
                &&& book.rooms@.contains_key(room)
                &&& ri[room] == item.parent_room.0
                &&& book.rooms@[room].conditions@.contains_key(item.num)
                &&& opt_str(item.description) == opt_str(book.rooms@[room].conditions@[item.num].desc)
                &&& item.id@ == condition_item_id(room, item.num)
            };
        lemma_room_at(f, ri, room);
    }
    assert forall|i: int| 0 <= i < f.nouns@.len() implies (#[trigger] f.nouns@[i]).parent_room.0 < f.rooms@.len() by {
        let item = f.nouns@[i];
        let room = choose|room: u16|
            #![trigger ri[room]]
            {
                &&& book.rooms@.contains_key(room)
                &&& ri[room] == item.parent_room.0
                &&& book.rooms@[room].nouns@.contains_key(item.num)
                &&& opt_str(item.description) == opt_str(book.rooms@[room].nouns@[item.num].desc)
                &&& item.is_cutscene == book.rooms@[room].nouns@[item.num].is_cutscene
            };
        lemma_room_at(f, ri, room);
    }
    assert forall|i: int| 0 <= i < f.conversations@.len() implies {
        &&& (#[trigger] f.conversations@[i]).parent_noun.0 < f.nouns@.len()
        &&& f.conversations@[i].verb matches Some(v) ==> v.0 < f.verbs@.len()
        &&& f.conversations@[i].condition matches Some(c) ==> c.0 < f.conditions@.len()
    } by {
        let q = choose|q: (u16, u8, u8, u8)|
            #[trigger] book_has_conv(book, q) && conv_item_for(f.conversations@[i], q, vi, ci, ni);
        lemma_conv_at(f, vi, ri, ci, ni, i, q);
    }
}

/// Each condition and noun of the book has an item, and rooms, nouns and
/// conversations have one item each.
proof fn lemma_format_complete_distinct(
    book: Book,
    f: BookFormat,
    vi: Map<u8, usize>,
    ri: Map<u16, usize>,
    ci: Map<(u16, u8), usize>,
    ni: Map<(u16, u8), usize>,
    qi: Map<(u16, u8, u8, u8), usize>,
)
    requires
        indexes(vi, f.verbs@, |v: VerbItem| v.num),
        indexes(ri, f.rooms@, |v: RoomItem| v.num),
        forall|i: int| 0 <= i < f.rooms@.len() ==> ri[(#[trigger] f.rooms@[i]).num] == i,
        indexes_in_rooms(ci, f.conditions@, |c: ConditionItem| c.num, |c: ConditionItem| c.parent_room.0, ri),
        forall|room: u16, c: u8|
            book.rooms@.contains_key(room) && #[trigger] book.rooms@[room].conditions@.contains_key(c)
                ==> ci.contains_key((room, c)),
        indexes_in_rooms(ni, f.nouns@, |c: NounItem| c.num, |c: NounItem| c.parent_room.0, ri),
        forall|room: u16, n: u8|
            book.rooms@.contains_key(room) && #[trigger] book.rooms@[room].nouns@.contains_key(n)
                ==> ni.contains_key((room, n)),
        forall|p: int| 0 <= p < f.nouns@.len() ==> #[trigger] has_key_at(ni, p),
        forall|q: (u16, u8, u8, u8)|
            #[trigger] qi.contains_key(q) ==> qi[q] < f.conversations@.len() && book_has_conv(book, q)
                && conv_item_for(f.conversations@[qi[q] as int], q, vi, ci, ni),
        forall|p: int| 0 <= p < f.conversations@.len() ==> #[trigger] has_key_at(qi, p),
    ensures
        forall|room: u16, c: u8|
            book.rooms@.contains_key(room) && #[trigger] book.rooms@[room].conditions@.contains_key(c)
                ==> exists|i: int|
                0 <= i < f.conditions@.len() && room_num_at(f, (#[trigger] f.conditions@[i]).parent_room.0 as int)
                    == room && f.conditions@[i].num == c,
        forall|room: u16, n: u8|
            book.rooms@.contains_key(room) && #[trigger] book.rooms@[room].nouns@.contains_key(n)
                ==> exists|i: int| 0 <= i < f.nouns@.len() && #[trigger] noun_pair_at(f, i) == (room, n),
        forall|i: int, j: int| 0 <= i < j < f.rooms@.len() ==> f.rooms@[i].num != f.rooms@[j].num,
        forall|i: int, j: int| 0 <= i < j < f.nouns@.len() ==> noun_pair_at(f, i) != noun_pair_at(f, j),
        forall|i: int, j: int|
            0 <= i < j < f.conversations@.len() ==> conv_quad_at(f, i) != conv_quad_at(f, j),
{
    assert forall|room: u16, c: u8|
        book.rooms@.contains_key(room) && #[trigger] book.rooms@[room].conditions@.contains_key(c)
            implies exists|i: int|
            0 <= i < f.conditions@.len() && room_num_at(f, (#[trigger] f.conditions@[i]).parent_room.0 as int)
                == room && f.conditions@[i].num == c by {
        let i = ci[(room, c)] as int;
        lemma_room_at(f, ri, room);
        assert(room_num_at(f, f.conditions@[i].parent_room.0 as int) == room);
    }
    assert forall|room: u16, n: u8|
        book.rooms@.contains_key(room) && #[trigger] book.rooms@[room].nouns@.contains_key(n)
            implies exists|i: int| 0 <= i < f.nouns@.len() && #[trigger] noun_pair_at(f, i) == (room, n) by {
        lemma_noun_at(f, ri, ni, (room, n));
    }
    assert forall|i: int, j: int| 0 <= i < j < f.rooms@.len() implies f.rooms@[i].num != f.rooms@[j].num by {
        assert(ri[f.rooms@[i].num] == i);
        assert(ri[f.rooms@[j].num] == j);
    }
    assert forall|i: int, j: int| 0 <= i < j < f.nouns@.len() implies noun_pair_at(f, i) != noun_pair_at(f, j) by {
        assert(has_key_at(ni, i));
        assert(has_key_at(ni, j));
        let ki = choose|k: (u16, u8)| #[trigger] ni.contains_key(k) && ni[k] == i;
        let kj = choose|k: (u16, u8)| #[trigger] ni.contains_key(k) && ni[k] == j;
        lemma_noun_at(f, ri, ni, ki);
        lemma_noun_at(f, ri, ni, kj);
    }
    assert forall|i: int, j: int|
        0 <= i < j < f.conversations@.len() implies conv_quad_at(f, i) != conv_quad_at(f, j) by {
        assert(has_key_at(qi, i));
        assert(has_key_at(qi, j));
        let ki = choose|k: (u16, u8, u8, u8)| #[trigger] qi.contains_key(k) && qi[k] == i;
        let kj = choose|k: (u16, u8, u8, u8)| #[trigger] qi.contains_key(k) && qi[k] == j;
        lemma_conv_at(f, vi, ri, ci, ni, i, ki);
        lemma_conv_at(f, vi, ri, ci, ni, j, kj);
    }
}

} // verus!
