//! Navigating a book: handles on its rooms, nouns, conditions,
//! conversations, lines, roles and verbs, each borrowing from the book and
//! leading to the entities related to it.
//!
//! Every list of handles comes in the order of the entities' identifiers.
use std::collections::BTreeMap;

use vstd::prelude::*;
use vstd::std_specs::cmp::OrdSpec;
use vstd::std_specs::iter::IteratorSpec;

use crate::book::ids::{
    ConditionId, ConversationId, ConversationKey, LineId, NounId, RawConditionId, RawNounId,
    RawRoleId, RawRoomId, RawSequenceId, RawVerbId, RoleId, RoomId, VerbId,
};
use crate::book::rich_text::RichText;
use crate::book::{
    roles_model, Book, ConditionEntry, ConversationEntry, LineEntry, NounEntry, RoleEntry,
    RoomEntry, SkippedSequence, VerbEntry,
};
use crate::formats::aseprite::props::{keys_sorted, lookup};
use crate::strings::str_eq;

verus! {

broadcast use {vstd::std_specs::btree::group_btree_axioms, vstd::laws_cmp::group_laws_cmp};

/// Whether `r` lists the entries of `m`: each of its keys, once, with its
/// value.
pub open spec fn lists_entries<K, V>(m: Map<K, V>, r: Seq<(K, &V)>) -> bool {
    &&& r.len() == m.dom().len()
    &&& forall|i: int|
        0 <= i < r.len() ==> m.contains_key((#[trigger] r[i]).0) && *r[i].1 == m[r[i].0]
    &&& forall|k: K| #[trigger] m.contains_key(k) ==> exists|i: int| 0 <= i < r.len() && r[i].0 == k
}

/// The keys listed in `r`, in order.
pub open spec fn listed_keys<K, V>(r: Seq<(K, &V)>) -> Seq<K> {
    r.map_values(|p: (K, &V)| p.0)
}

/// The entries of `m`, in the order of their keys.
fn sorted_entries<'a, K: Copy, V>(m: &'a BTreeMap<K, V>) -> (r: Vec<(K, &'a V)>)
    requires
        vstd::std_specs::btree::key_obeys_cmp_spec::<K>(),
    ensures
        lists_entries(m@, r@),
        vstd::std_specs::btree::increasing_seq(listed_keys(r@)),
{
    let ghost s = vstd::std_specs::btree::spec_btree_map_iter(m).remaining();
    let mut r: Vec<(K, &'a V)> = Vec::new();
    for (k, v) in it: m.iter()
        invariant
            it.seq() == s,
            r@.len() == it.index(),
            forall|j: int| 0 <= j < r@.len() ==> #[trigger] r@[j] == (*s[j].0, s[j].1),
    {
        r.push((*k, v));
    }
    proof {
        assert(listed_keys(r@) =~= s.map_values(|kv: (&K, &V)| *kv.0));
        assert forall|i: int| 0 <= i < r@.len() implies m@.contains_key((#[trigger] r@[i]).0)
            && *r@[i].1 == m@[r@[i].0] by {
            assert(r@[i] == (*s[i].0, s[i].1));
            assert(m@.contains_key(*s[i].0));
        }
        assert forall|k: K| #[trigger] m@.contains_key(k) implies exists|i: int|
            0 <= i < r@.len() && r@[i].0 == k by {
            assert(s.contains((&k, &m@[k])));
            let j = choose|j: int| 0 <= j < s.len() && s[j] == (&k, &m@[k]);
            assert(r@[j] == (*s[j].0, s[j].1));
        }
    }
    r
}

/// Listed room numbers increase.
proof fn lemma_rooms_increase<V>(r: Seq<(u16, &V)>)
    requires
        vstd::std_specs::btree::increasing_seq(listed_keys(r)),
    ensures
        forall|i: int, j: int| 0 <= i < j < r.len() ==> r[i].0 < r[j].0,
{
    let ks = listed_keys(r);
    assert forall|i: int, j: int| 0 <= i < j < r.len() implies r[i].0 < r[j].0 by {
        assert(ks[i].cmp_spec(&ks[j]) is Less);
    }
}

/// Listed numbers increase.
proof fn lemma_numbers_increase<V>(r: Seq<(u8, &V)>)
    requires
        vstd::std_specs::btree::increasing_seq(listed_keys(r)),
    ensures
        forall|i: int, j: int| 0 <= i < j < r.len() ==> r[i].0 < r[j].0,
{
    let ks = listed_keys(r);
    assert forall|i: int, j: int| 0 <= i < j < r.len() implies r[i].0 < r[j].0 by {
        assert(ks[i].cmp_spec(&ks[j]) is Less);
    }
}

/// Listed pairs of numbers increase, the first number first.
proof fn lemma_pairs_increase<V>(r: Seq<((u8, u8), &V)>)
    requires
        vstd::std_specs::btree::increasing_seq(listed_keys(r)),
    ensures
        forall|i: int, j: int| 0 <= i < j < r.len() ==> pair_lt(r[i].0, r[j].0),
{
    let ks = listed_keys(r);
    assert forall|i: int, j: int| 0 <= i < j < r.len() implies pair_lt(r[i].0, r[j].0) by {
        assert(ks[i].cmp_spec(&ks[j]) is Less);
    }
}

/// Numbers, rooms and pairs are ordered keys of a `BTreeMap`.
proof fn lemma_keys_ordered()
    ensures
        vstd::std_specs::btree::key_obeys_cmp_spec::<u16>(),
        vstd::std_specs::btree::key_obeys_cmp_spec::<u8>(),
        vstd::std_specs::btree::key_obeys_cmp_spec::<(u8, u8)>(),
{
}

/// Whether the pair `a` comes before `b`: by the first number, then the
/// second.
pub open spec fn pair_lt(a: (u8, u8), b: (u8, u8)) -> bool {
    a.0 < b.0 || (a.0 == b.0 && a.1 < b.1)
}

/// Whether the pair `a` of a room and a number comes before `b`: by the
/// room, then the number.
pub open spec fn key_lt(a: (u16, u8), b: (u16, u8)) -> bool {
    a.0 < b.0 || (a.0 == b.0 && a.1 < b.1)
}

/// Whether the conversation `a` comes before `b`: by the noun, then the
/// verb and condition.
pub open spec fn conv_lt(a: (u16, u8, u8, u8), b: (u16, u8, u8, u8)) -> bool {
    key_lt((a.0, a.1), (b.0, b.1)) || ((a.0, a.1) == (b.0, b.1) && pair_lt((a.2, a.3), (b.2, b.3)))
}

/// Whether the line `a` comes before `b`: by the conversation, then the
/// sequence number.
pub open spec fn line_lt(a: (u16, u8, u8, u8, u8), b: (u16, u8, u8, u8, u8)) -> bool {
    conv_lt((a.0, a.1, a.2, a.3), (b.0, b.1, b.2, b.3)) || ((a.0, a.1, a.2, a.3) == (
        b.0,
        b.1,
        b.2,
        b.3,
    ) && a.4 < b.4)
}

/// A room of a book.
#[derive(Clone, Copy)]
pub struct Room<'a> {
    pub book: &'a Book,
    pub raw_id: u16,
    pub entry: &'a RoomEntry,
}

impl<'a> Room<'a> {
    /// The handle is the book's room `raw_id`.
    pub open spec fn wf(&self) -> bool {
        self.book.rooms@.contains_key(self.raw_id) && *self.entry == self.book.rooms@[self.raw_id]
    }

    /// The room's identifier.
    pub fn id(&self) -> (r: RoomId)
        ensures
            r.0.0 == self.raw_id,
    {
        RoomId::from_raw(RawRoomId(self.raw_id))
    }

    /// The room's name, if it has one.
    pub fn name(&self) -> (s: Option<&'a str>)
        ensures
            match s {
                Some(x) => self.entry.name matches Some(n) && n@ == x@,
                None => self.entry.name is None,
            },
    {
        match &self.entry.name {
            Some(n) => Some(n.as_str()),
            None => None,
        }
    }

    /// The room's nouns, in the order of their numbers.
    pub fn nouns(&self) -> (r: Vec<Noun<'a>>)
        ensures
            forall|i: int|
                0 <= i < r@.len() ==> (#[trigger] r@[i]).room == *self
                    && self.entry.nouns@.contains_key(r@[i].raw_id) && *r@[i].entry
                    == self.entry.nouns@[r@[i].raw_id],
            forall|i: int, j: int| 0 <= i < j < r@.len() ==> r@[i].raw_id < r@[j].raw_id,
            forall|n: u8|
                #[trigger] self.entry.nouns@.contains_key(n) ==> exists|i: int|
                    0 <= i < r@.len() && r@[i].raw_id == n,
    {
        proof {
            lemma_keys_ordered();
        }
        let es = sorted_entries(&self.entry.nouns);
        proof {
            lemma_numbers_increase(es@);
        }
        let mut r: Vec<Noun<'a>> = Vec::new();
        let mut i: usize = 0;
        while i < es.len()
            invariant
                i <= es@.len(),
                r@.len() == i,
                forall|j: int|
                    0 <= j < i ==> #[trigger] r@[j] == (Noun {
                        room: *self,
                        raw_id: es@[j].0,
                        entry: es@[j].1,
                    }),
            decreases es@.len() - i,
        {
            r.push(Noun { room: *self, raw_id: es[i].0, entry: es[i].1 });
            i = i + 1;
        }
        proof {
            assert forall|n: u8| #[trigger] self.entry.nouns@.contains_key(n) implies exists|i: int|
                0 <= i < r@.len() && r@[i].raw_id == n by {
                let j = choose|j: int| 0 <= j < es@.len() && es@[j].0 == n;
                assert(r@[j].raw_id == n);
            }
            assert forall|i: int, j: int| 0 <= i < j < r@.len() implies r@[i].raw_id
                < r@[j].raw_id by {
                assert(r@[i].raw_id == es@[i].0 && r@[j].raw_id == es@[j].0);
            }
        }
        r
    }

    /// The room's conditions, in the order of their numbers.
    pub fn conditions(&self) -> (r: Vec<Condition<'a>>)
        ensures
            forall|i: int|
                0 <= i < r@.len() ==> (#[trigger] r@[i]).room == *self
                    && self.entry.conditions@.contains_key(r@[i].raw_id) && *r@[i].entry
                    == self.entry.conditions@[r@[i].raw_id],
            forall|i: int, j: int| 0 <= i < j < r@.len() ==> r@[i].raw_id < r@[j].raw_id,
            forall|c: u8|
                #[trigger] self.entry.conditions@.contains_key(c) ==> exists|i: int|
                    0 <= i < r@.len() && r@[i].raw_id == c,
    {
        proof {
            lemma_keys_ordered();
        }
        let es = sorted_entries(&self.entry.conditions);
        proof {
            lemma_numbers_increase(es@);
        }
        let mut r: Vec<Condition<'a>> = Vec::new();
        let mut i: usize = 0;
        while i < es.len()
            invariant
                i <= es@.len(),
                r@.len() == i,
                forall|j: int|
                    0 <= j < i ==> #[trigger] r@[j] == (Condition {
                        room: *self,
                        raw_id: es@[j].0,
                        entry: es@[j].1,
                    }),
            decreases es@.len() - i,
        {
            r.push(Condition { room: *self, raw_id: es[i].0, entry: es[i].1 });
            i = i + 1;
        }
        proof {
            assert forall|c: u8| #[trigger] self.entry.conditions@.contains_key(c) implies exists|
                i: int,
            | 0 <= i < r@.len() && r@[i].raw_id == c by {
                let j = choose|j: int| 0 <= j < es@.len() && es@[j].0 == c;
                assert(r@[j].raw_id == c);
            }
            assert forall|i: int, j: int| 0 <= i < j < r@.len() implies r@[i].raw_id
                < r@[j].raw_id by {
                assert(r@[i].raw_id == es@[i].0 && r@[j].raw_id == es@[j].0);
            }
        }
        r
    }

    /// The room's condition `raw_id`, if it has it.
    fn get_condition_inner(&self, raw_id: u8) -> (c: Option<Condition<'a>>)
        ensures
            match c {
                Some(cond) => cond.room == *self && cond.raw_id == raw_id
                    && self.entry.conditions@.contains_key(raw_id) && *cond.entry
                    == self.entry.conditions@[raw_id],
                None => !self.entry.conditions@.contains_key(raw_id),
            },
    {
        match self.entry.conditions.get(&raw_id) {
            Some(entry) => Some(Condition { room: *self, raw_id, entry }),
            None => None,
        }
    }

    /// The room's noun `raw_id`, if it has it.
    fn get_noun_inner(&self, raw_id: u8) -> (n: Option<Noun<'a>>)
        ensures
            match n {
                Some(noun) => noun.room == *self && noun.raw_id == raw_id
                    && self.entry.nouns@.contains_key(raw_id) && *noun.entry
                    == self.entry.nouns@[raw_id],
                None => !self.entry.nouns@.contains_key(raw_id),
            },
    {
        match self.entry.nouns.get(&raw_id) {
            Some(entry) => Some(Noun { room: *self, raw_id, entry }),
            None => None,
        }
    }
}

/// A condition of a room.
#[derive(Clone, Copy)]
pub struct Condition<'a> {
    pub room: Room<'a>,
    pub raw_id: u8,
    pub entry: &'a ConditionEntry,
}

impl<'a> Condition<'a> {
    /// The handle is the condition `raw_id` of a room of the book.
    pub open spec fn wf(&self) -> bool {
        &&& self.room.wf()
        &&& self.room.entry.conditions@.contains_key(self.raw_id)
        &&& *self.entry == self.room.entry.conditions@[self.raw_id]
    }

    /// The room and number of the condition.
    pub open spec fn key(&self) -> (u16, u8) {
        (self.room.raw_id, self.raw_id)
    }

    /// The condition's identifier.
    pub fn id(&self) -> (c: ConditionId)
        ensures
            c.room.0.0 == self.room.raw_id,
            c.condition.0 == self.raw_id,
    {
        ConditionId::from_room_raw(self.room.id(), RawConditionId(self.raw_id))
    }

    /// The condition's description, if the config gave it one.
    pub fn desc(&self) -> (s: Option<&'a str>)
        ensures
            match s {
                Some(x) => self.entry.desc matches Some(d) && d@ == x@,
                None => self.entry.desc is None,
            },
    {
        match &self.entry.desc {
            Some(d) => Some(d.as_str()),
            None => None,
        }
    }

    /// The room the condition belongs to.
    pub fn room(&self) -> (r: Room<'a>)
        ensures
            r == self.room,
    {
        self.room
    }
}

/// A noun of a room.
#[derive(Clone, Copy)]
pub struct Noun<'a> {
    pub room: Room<'a>,
    pub raw_id: u8,
    pub entry: &'a NounEntry,
}

impl<'a> Noun<'a> {
    /// The handle is the noun `raw_id` of a room of the book.
    pub open spec fn wf(&self) -> bool {
        &&& self.room.wf()
        &&& self.room.entry.nouns@.contains_key(self.raw_id)
        &&& *self.entry == self.room.entry.nouns@[self.raw_id]
    }

    /// The room and number of the noun.
    pub open spec fn key(&self) -> (u16, u8) {
        (self.room.raw_id, self.raw_id)
    }

    /// The noun's identifier.
    pub fn id(&self) -> (n: NounId)
        ensures
            n.pair() == self.key(),
    {
        NounId::from_room_raw(self.room.id(), RawNounId(self.raw_id))
    }

    /// The noun's description, if it has one.
    pub fn desc(&self) -> (s: Option<&'a str>)
        ensures
            match s {
                Some(x) => self.entry.desc matches Some(d) && d@ == x@,
                None => self.entry.desc is None,
            },
    {
        match &self.entry.desc {
            Some(d) => Some(d.as_str()),
            None => None,
        }
    }

    /// Whether the noun is a cutscene.
    pub fn is_cutscene(&self) -> (b: bool)
        ensures
            b == self.entry.is_cutscene,
    {
        self.entry.is_cutscene
    }

    /// The room the noun belongs to.
    pub fn room(&self) -> (r: Room<'a>)
        ensures
            r == self.room,
    {
        self.room
    }

    /// The noun's conversations, in the order of their (verb, condition)
    /// keys.
    pub fn conversations(&self) -> (r: Vec<Conversation<'a>>)
        ensures
            forall|i: int|
                0 <= i < r@.len() ==> (#[trigger] r@[i]).noun == *self
                    && self.entry.conversations@.contains_key(r@[i].raw_id) && *r@[i].entry
                    == self.entry.conversations@[r@[i].raw_id],
            forall|i: int, j: int| 0 <= i < j < r@.len() ==> pair_lt(r@[i].raw_id, r@[j].raw_id),
            forall|k: (u8, u8)|
                #[trigger] self.entry.conversations@.contains_key(k) ==> exists|i: int|
                    0 <= i < r@.len() && r@[i].raw_id == k,
    {
        proof {
            lemma_keys_ordered();
        }
        let es = sorted_entries(&self.entry.conversations);
        proof {
            lemma_pairs_increase(es@);
        }
        let mut r: Vec<Conversation<'a>> = Vec::new();
        let mut i: usize = 0;
        while i < es.len()
            invariant
                i <= es@.len(),
                r@.len() == i,
                forall|j: int|
                    0 <= j < i ==> #[trigger] r@[j] == (Conversation {
                        noun: *self,
                        raw_id: es@[j].0,
                        entry: es@[j].1,
                    }),
            decreases es@.len() - i,
        {
            r.push(Conversation { noun: *self, raw_id: es[i].0, entry: es[i].1 });
            i = i + 1;
        }
        proof {
            assert forall|k: (u8, u8)| #[trigger] self.entry.conversations@.contains_key(
                k,
            ) implies exists|i: int| 0 <= i < r@.len() && r@[i].raw_id == k by {
                let j = choose|j: int| 0 <= j < es@.len() && es@[j].0 == k;
                assert(r@[j].raw_id == k);
            }
            assert forall|i: int, j: int| 0 <= i < j < r@.len() implies pair_lt(
                r@[i].raw_id,
                r@[j].raw_id,
            ) by {
                assert(r@[i].raw_id == es@[i].0 && r@[j].raw_id == es@[j].0);
            }
        }
        r
    }

    /// The noun's conversation `key`, if it has it.
    fn get_conversation_inner(&self, key: (u8, u8)) -> (c: Option<Conversation<'a>>)
        ensures
            match c {
                Some(conv) => conv.noun == *self && conv.raw_id == key
                    && self.entry.conversations@.contains_key(key) && *conv.entry
                    == self.entry.conversations@[key],
                None => !self.entry.conversations@.contains_key(key),
            },
    {
        match self.entry.conversations.get(&key) {
            Some(entry) => Some(Conversation { noun: *self, raw_id: key, entry }),
            None => None,
        }
    }
}

/// A conversation of a noun.
#[derive(Clone, Copy)]
pub struct Conversation<'a> {
    pub noun: Noun<'a>,
    pub raw_id: (u8, u8),
    pub entry: &'a ConversationEntry,
}

impl<'a> Conversation<'a> {
    /// The handle is the conversation `raw_id` of a noun of the book.
    pub open spec fn wf(&self) -> bool {
        &&& self.noun.wf()
        &&& self.noun.entry.conversations@.contains_key(self.raw_id)
        &&& *self.entry == self.noun.entry.conversations@[self.raw_id]
    }

    /// The room, noun, verb and condition of the conversation.
    pub open spec fn key(&self) -> (u16, u8, u8, u8) {
        (self.noun.room.raw_id, self.noun.raw_id, self.raw_id.0, self.raw_id.1)
    }

    /// The book the conversation is in.
    pub open spec fn book(&self) -> &'a Book {
        self.noun.room.book
    }

    /// The conversation's identifier.
    pub fn id(&self) -> (c: ConversationId)
        ensures
            c.quad() == self.key(),
    {
        ConversationId::from_noun_key(
            self.noun.id(),
            ConversationKey::new(RawVerbId(self.raw_id.0), RawConditionId(self.raw_id.1)),
        )
    }

    /// The conversation's lines, in the order of their sequence numbers.
    pub fn lines(&self) -> (r: Vec<Line<'a>>)
        ensures
            forall|i: int|
                0 <= i < r@.len() ==> (#[trigger] r@[i]).conversation == *self
                    && self.entry.lines@.contains_key(r@[i].raw_id) && *r@[i].entry
                    == self.entry.lines@[r@[i].raw_id],
            forall|i: int, j: int| 0 <= i < j < r@.len() ==> r@[i].raw_id < r@[j].raw_id,
            forall|s: u8|
                #[trigger] self.entry.lines@.contains_key(s) ==> exists|i: int|
                    0 <= i < r@.len() && r@[i].raw_id == s,
    {
        proof {
            lemma_keys_ordered();
        }
        let es = sorted_entries(&self.entry.lines);
        proof {
            lemma_numbers_increase(es@);
        }
        let mut r: Vec<Line<'a>> = Vec::new();
        let mut i: usize = 0;
        while i < es.len()
            invariant
                i <= es@.len(),
                r@.len() == i,
                forall|j: int|
                    0 <= j < i ==> #[trigger] r@[j] == (Line {
                        conversation: *self,
                        raw_id: es@[j].0,
                        entry: es@[j].1,
                    }),
            decreases es@.len() - i,
        {
            r.push(Line { conversation: *self, raw_id: es[i].0, entry: es[i].1 });
            i = i + 1;
        }
        proof {
            assert forall|s: u8| #[trigger] self.entry.lines@.contains_key(s) implies exists|i: int|
                0 <= i < r@.len() && r@[i].raw_id == s by {
                let j = choose|j: int| 0 <= j < es@.len() && es@[j].0 == s;
                assert(r@[j].raw_id == s);
            }
            assert forall|i: int, j: int| 0 <= i < j < r@.len() implies r@[i].raw_id
                < r@[j].raw_id by {
                assert(r@[i].raw_id == es@[i].0 && r@[j].raw_id == es@[j].0);
            }
        }
        r
    }

    /// The noun the conversation belongs to.
    pub fn noun(&self) -> (n: Noun<'a>)
        ensures
            n == self.noun,
    {
        self.noun
    }

    /// The verb of the conversation: none for verb 0, else the book's verb
    /// of that number, which the book must have.
    pub fn verb(&self) -> (v: Option<Verb<'a>>)
        requires
            self.raw_id.0 != 0 ==> self.book().verbs@.contains_key(self.raw_id.0),
        ensures
            match v {
                Some(verb) => self.raw_id.0 != 0 && verb.raw_id == self.raw_id.0 && *verb.entry
                    == self.book().verbs@[self.raw_id.0],
                None => self.raw_id.0 == 0,
            },
    {
        if self.raw_id.0 == 0 {
            return None;
        }
        self.noun.room.book.get_verb(VerbId::from_raw(RawVerbId(self.raw_id.0)))
    }

    /// The condition of the conversation: none for condition 0, else the
    /// room's condition of that number, which the room must have.
    pub fn condition(&self) -> (c: Option<Condition<'a>>)
        requires
            self.raw_id.1 != 0 ==> self.noun.room.entry.conditions@.contains_key(self.raw_id.1),
        ensures
            match c {
                Some(cond) => self.raw_id.1 != 0 && cond.room == self.noun.room && cond.raw_id
                    == self.raw_id.1 && *cond.entry == self.noun.room.entry.conditions@[self.raw_id.1],
                None => self.raw_id.1 == 0,
            },
    {
        if self.raw_id.1 == 0 {
            return None;
        }
        self.noun.room.get_condition_inner(self.raw_id.1)
    }

    /// Checks that the conversation's lines are numbered 1, 2, 3, ... with
    /// no gap (see [`ConversationEntry::validate_complete`]).
    pub fn validate_complete(&self) -> (r: Result<(), Vec<SkippedSequence>>)
        requires
            !self.entry.lines@.contains_key(255),
        ensures
            match r {
                Ok(()) => crate::book::skipped_below(self.entry.lines@.dom(), 256).len() == 0,
                Err(v) => v@.len() > 0 && v@ == crate::book::skipped_below(
                    self.entry.lines@.dom(),
                    256,
                ),
            },
    {
        self.entry.validate_complete()
    }

    /// The conversation's line `raw_id`, if it has it.
    fn get_line_inner(&self, raw_id: u8) -> (l: Option<Line<'a>>)
        ensures
            match l {
                Some(line) => line.conversation == *self && line.raw_id == raw_id
                    && self.entry.lines@.contains_key(raw_id) && *line.entry
                    == self.entry.lines@[raw_id],
                None => !self.entry.lines@.contains_key(raw_id),
            },
    {
        match self.entry.lines.get(&raw_id) {
            Some(entry) => Some(Line { conversation: *self, raw_id, entry }),
            None => None,
        }
    }
}

/// A line of a conversation.
#[derive(Clone, Copy)]
pub struct Line<'a> {
    pub conversation: Conversation<'a>,
    pub raw_id: u8,
    pub entry: &'a LineEntry,
}

impl<'a> Line<'a> {
    /// The handle is the line `raw_id` of a conversation of the book.
    pub open spec fn wf(&self) -> bool {
        &&& self.conversation.wf()
        &&& self.conversation.entry.lines@.contains_key(self.raw_id)
        &&& *self.entry == self.conversation.entry.lines@[self.raw_id]
    }

    /// The room, noun, verb, condition and sequence number of the line.
    pub open spec fn key(&self) -> (u16, u8, u8, u8, u8) {
        let c = self.conversation.key();
        (c.0, c.1, c.2, c.3, self.raw_id)
    }

    /// The room, noun, verb, condition and sequence number of the line.
    pub fn line_key(&self) -> (k: (u16, u8, u8, u8, u8))
        ensures
            k == self.key(),
    {
        let c = self.conversation;
        (c.noun.room.raw_id, c.noun.raw_id, c.raw_id.0, c.raw_id.1, self.raw_id)
    }

    /// The line's identifier.
    pub fn id(&self) -> (l: LineId)
        ensures
            l.conversation.quad() == self.conversation.key(),
            l.sequence.0 == self.raw_id,
    {
        LineId::from_conv_seq(self.conversation.id(), RawSequenceId(self.raw_id))
    }

    /// The line's text.
    pub fn text(&self) -> (t: &'a RichText)
        ensures
            *t == self.entry.text,
    {
        &self.entry.text
    }

    /// The role that speaks the line, which the book must have.
    pub fn role(&self) -> (r: Role<'a>)
        requires
            self.conversation.book().wf(),
            lookup(roles_model(self.conversation.book().roles@), self.entry.role.0@) is Some,
        ensures
            r.raw_id@ == self.entry.role.0@,
            lookup(roles_model(self.conversation.book().roles@), self.entry.role.0@) == Some(
                (r.entry.name@, r.entry.short_name@),
            ),
    {
        let book = self.conversation.noun.room.book;
        match book.get_role(&RoleId::from_raw(RawRoleId::new(self.entry.role.0.clone()))) {
            Some(role) => role,
            None => {
                proof {
                    assert(false);
                }
                Role { raw_id: &book.roles[0].0, entry: &book.roles[0].1 }
            },
        }
    }

    /// The conversation the line belongs to.
    pub fn conversation(&self) -> (c: Conversation<'a>)
        ensures
            c == self.conversation,
    {
        self.conversation
    }

    /// The number of the talker of the line's message.
    pub fn talker_num(&self) -> (n: u8)
        ensures
            n == self.entry.talker.0,
    {
        self.entry.talker.as_u8()
    }
}

/// A role of a book.
pub struct Role<'a> {
    pub raw_id: &'a String,
    pub entry: &'a RoleEntry,
}

impl Role<'_> {
    /// The role's identifier.
    pub fn id(&self) -> (r: RoleId)
        ensures
            r@ == self.raw_id@,
    {
        RoleId::from_raw(RawRoleId::new(self.raw_id.clone()))
    }

    /// The role's full name.
    pub fn name(&self) -> (s: &str)
        ensures
            s@ == self.entry.name@,
    {
        self.entry.name.as_str()
    }

    /// The role's short name.
    pub fn short_name(&self) -> (s: &str)
        ensures
            s@ == self.entry.short_name@,
    {
        self.entry.short_name.as_str()
    }
}

/// A verb of a book.
pub struct Verb<'a> {
    pub raw_id: u8,
    pub entry: &'a VerbEntry,
}

impl Verb<'_> {
    /// The verb's identifier.
    pub fn id(&self) -> (v: VerbId)
        ensures
            v@ == self.raw_id,
    {
        VerbId::from_raw(RawVerbId(self.raw_id))
    }

    /// The verb's name.
    pub fn name(&self) -> (s: &str)
        ensures
            s@ == self.entry.name@,
    {
        self.entry.name.as_str()
    }
}

/// A line of the book is found again by its identifier: the book has a
/// line there, and every handle on the book's line of that identifier has
/// the same entry.
pub proof fn lemma_line_found_by_id<'a>(book: &'a Book, l: Line<'a>, m: Line<'a>)
    requires
        l.wf(),
        l.conversation.book() == book,
        m.wf(),
        m.conversation.book() == book,
        m.key() == l.key(),
    ensures
        book.has_line(l.key()),
        *m.entry == *l.entry,
{
}

/// The entry at a place of sorted entries is what their key looks up.
proof fn lemma_lookup_at<V>(es: Seq<(Seq<char>, V)>, i: int)
    requires
        0 <= i < es.len(),
    ensures
        lookup(es, es[i].0) is Some,
        keys_sorted(es) ==> lookup(es, es[i].0) == Some(es[i].1),
{
    let k = es[i].0;
    assert(es[i].0 == k);
    if keys_sorted(es) {
        crate::formats::aseprite::props::lemma_lookup_update(es, i, k, es[i].1);
        assert(es.update(i, (k, es[i].1)) =~= es);
    }
}

impl Book {
    /// The role with identifier `id`, if the book has it.
    pub fn get_role(&self, id: &RoleId) -> (r: Option<Role<'_>>)
        requires
            self.wf(),
        ensures
            match r {
                Some(role) => lookup(roles_model(self.roles@), id@) == Some(
                    (role.entry.name@, role.entry.short_name@),
                ) && role.raw_id@ == id@,
                None => lookup(roles_model(self.roles@), id@) is None,
            },
    {
        let key = id.as_str();
        let mut i: usize = 0;
        while i < self.roles.len()
            invariant
                i <= self.roles@.len(),
                key@ == id@,
                keys_sorted(roles_model(self.roles@)),
                forall|j: int| 0 <= j < i ==> (#[trigger] self.roles@[j]).0@ != id@,
            decreases self.roles@.len() - i,
        {
            if str_eq(self.roles[i].0.as_str(), key) {
                let ghost rm = roles_model(self.roles@);
                proof {
                    assert(rm[i as int] == (self.roles@[i as int].0@, (
                        self.roles@[i as int].1.name@,
                        self.roles@[i as int].1.short_name@,
                    )));
                    lemma_lookup_at(rm, i as int);
                }
                return Some(Role { raw_id: &self.roles[i].0, entry: &self.roles[i].1 });
            }
            i = i + 1;
        }
        proof {
            let rm = roles_model(self.roles@);
            assert forall|j: int| 0 <= j < rm.len() implies (#[trigger] rm[j]).0 != id@ by {
                assert(rm[j].0 == self.roles@[j].0@);
            }
        }
        None
    }

    /// The verb `id`, if the book has it.
    pub fn get_verb(&self, id: VerbId) -> (v: Option<Verb<'_>>)
        ensures
            match v {
                Some(verb) => self.verbs@.contains_key(id@) && *verb.entry == self.verbs@[id@]
                    && verb.raw_id == id@,
                None => !self.verbs@.contains_key(id@),
            },
    {
        let n = id.verb_num();
        match self.verbs.get(&n) {
            Some(entry) => Some(Verb { raw_id: n, entry }),
            None => None,
        }
    }

    /// Whether the book has the noun `id`.
    pub open spec fn has_noun(&self, id: (u16, u8)) -> bool {
        self.rooms@.contains_key(id.0) && self.rooms@[id.0].nouns@.contains_key(id.1)
    }

    /// Whether the book has the condition `id`.
    pub open spec fn has_condition(&self, id: (u16, u8)) -> bool {
        self.rooms@.contains_key(id.0) && self.rooms@[id.0].conditions@.contains_key(id.1)
    }

    /// Whether the book has the conversation `id`.
    pub open spec fn has_conversation(&self, id: (u16, u8, u8, u8)) -> bool {
        self.has_noun((id.0, id.1)) && self.rooms@[id.0].nouns@[id.1].conversations@.contains_key(
            (id.2, id.3),
        )
    }

    /// Whether the book has the line `id`.
    pub open spec fn has_line(&self, id: (u16, u8, u8, u8, u8)) -> bool {
        self.has_conversation((id.0, id.1, id.2, id.3))
            && self.rooms@[id.0].nouns@[id.1].conversations@[(id.2, id.3)].lines@.contains_key(id.4)
    }

    /// The book's rooms, in the order of their numbers.
    pub fn rooms(&self) -> (r: Vec<Room<'_>>)
        ensures
            forall|i: int| 0 <= i < r@.len() ==> (#[trigger] r@[i]).wf() && r@[i].book == self,
            forall|i: int, j: int| 0 <= i < j < r@.len() ==> r@[i].raw_id < r@[j].raw_id,
            forall|k: u16|
                #[trigger] self.rooms@.contains_key(k) ==> exists|i: int|
                    0 <= i < r@.len() && r@[i].raw_id == k,
    {
        proof {
            lemma_keys_ordered();
        }
        let es = sorted_entries(&self.rooms);
        proof {
            lemma_rooms_increase(es@);
        }
        let mut r: Vec<Room<'_>> = Vec::new();
        let mut i: usize = 0;
        while i < es.len()
            invariant
                i <= es@.len(),
                lists_entries(self.rooms@, es@),
                r@.len() == i,
                forall|j: int|
                    0 <= j < i ==> #[trigger] r@[j] == (Room {
                        book: self,
                        raw_id: es@[j].0,
                        entry: es@[j].1,
                    }),
            decreases es@.len() - i,
        {
            r.push(Room { book: self, raw_id: es[i].0, entry: es[i].1 });
            i = i + 1;
        }
        proof {
            assert forall|k: u16| #[trigger] self.rooms@.contains_key(k) implies exists|i: int|
                0 <= i < r@.len() && r@[i].raw_id == k by {
                let j = choose|j: int| 0 <= j < es@.len() && es@[j].0 == k;
                assert(r@[j].raw_id == k);
            }
            assert forall|i: int, j: int| 0 <= i < j < r@.len() implies r@[i].raw_id
                < r@[j].raw_id by {
                assert(r@[i].raw_id == es@[i].0 && r@[j].raw_id == es@[j].0);
            }
        }
        r
    }

    /// The book's roles, in the book's order.
    pub fn roles(&self) -> (r: Vec<Role<'_>>)
        ensures
            r@.len() == self.roles@.len(),
            forall|i: int|
                0 <= i < r@.len() ==> *(#[trigger] r@[i]).raw_id == self.roles@[i].0 && *r@[i].entry
                    == self.roles@[i].1,
    {
        let mut r: Vec<Role<'_>> = Vec::new();
        let mut i: usize = 0;
        while i < self.roles.len()
            invariant
                i <= self.roles@.len(),
                r@.len() == i,
                forall|j: int|
                    0 <= j < i ==> *(#[trigger] r@[j]).raw_id == self.roles@[j].0 && *r@[j].entry
                        == self.roles@[j].1,
            decreases self.roles@.len() - i,
        {
            r.push(Role { raw_id: &self.roles[i].0, entry: &self.roles[i].1 });
            i = i + 1;
        }
        r
    }

    /// The book's verbs, in the order of their numbers.
    pub fn verbs(&self) -> (r: Vec<Verb<'_>>)
        ensures
            forall|i: int|
                0 <= i < r@.len() ==> self.verbs@.contains_key((#[trigger] r@[i]).raw_id)
                    && *r@[i].entry == self.verbs@[r@[i].raw_id],
            forall|i: int, j: int| 0 <= i < j < r@.len() ==> r@[i].raw_id < r@[j].raw_id,
            forall|k: u8|
                #[trigger] self.verbs@.contains_key(k) ==> exists|i: int|
                    0 <= i < r@.len() && r@[i].raw_id == k,
    {
        proof {
            lemma_keys_ordered();
        }
        let es = sorted_entries(&self.verbs);
        proof {
            lemma_numbers_increase(es@);
        }
        let mut r: Vec<Verb<'_>> = Vec::new();
        let mut i: usize = 0;
        while i < es.len()
            invariant
                i <= es@.len(),
                lists_entries(self.verbs@, es@),
                r@.len() == i,
                forall|j: int|
                    0 <= j < i ==> #[trigger] r@[j] == (Verb { raw_id: es@[j].0, entry: es@[j].1 }),
            decreases es@.len() - i,
        {
            r.push(Verb { raw_id: es[i].0, entry: es[i].1 });
            i = i + 1;
        }
        proof {
            assert forall|k: u8| #[trigger] self.verbs@.contains_key(k) implies exists|i: int|
                0 <= i < r@.len() && r@[i].raw_id == k by {
                let j = choose|j: int| 0 <= j < es@.len() && es@[j].0 == k;
                assert(r@[j].raw_id == k);
            }
            assert forall|i: int, j: int| 0 <= i < j < r@.len() implies r@[i].raw_id
                < r@[j].raw_id by {
                assert(r@[i].raw_id == es@[i].0 && r@[j].raw_id == es@[j].0);
            }
        }
        r
    }

    /// All the nouns of the book, in the order of their (room, noun)
    /// numbers.
    pub fn nouns(&self) -> (r: Vec<Noun<'_>>)
        ensures
            forall|i: int|
                0 <= i < r@.len() ==> (#[trigger] r@[i]).wf() && r@[i].room.book == self,
            forall|i: int, j: int| 0 <= i < j < r@.len() ==> key_lt(r@[i].key(), r@[j].key()),
            forall|k: (u16, u8)|
                #[trigger] self.has_noun(k) ==> exists|i: int| 0 <= i < r@.len() && r@[i].key() == k,
    {
        let rooms = self.rooms();
        let mut r: Vec<Noun<'_>> = Vec::new();
        let mut i: usize = 0;
        while i < rooms.len()
            invariant
                i <= rooms@.len(),
                forall|j: int|
                    0 <= j < rooms@.len() ==> (#[trigger] rooms@[j]).wf() && rooms@[j].book == self,
                forall|a: int, b: int|
                    0 <= a < b < rooms@.len() ==> rooms@[a].raw_id < rooms@[b].raw_id,
                forall|t: int| 0 <= t < r@.len() ==> (#[trigger] r@[t]).wf() && r@[t].room.book == self,
                forall|a: int, b: int| 0 <= a < b < r@.len() ==> key_lt(r@[a].key(), r@[b].key()),
                i == 0 ==> r@.len() == 0,
                i > 0 ==> forall|t: int|
                    0 <= t < r@.len() ==> (#[trigger] r@[t]).room.raw_id <= rooms@[i - 1].raw_id,
                forall|j: int, n: u8|
                    0 <= j < i && #[trigger] rooms@[j].entry.nouns@.contains_key(n) ==> exists|t: int|
                        0 <= t < r@.len() && r@[t].key() == (rooms@[j].raw_id, n),
            decreases rooms@.len() - i,
        {
            let room = rooms[i];
            let mut ns = room.nouns();
            let ghost old_r = r@;
            let ghost added = ns@;
            r.append(&mut ns);
            proof {
                assert(r@ == old_r + added);
                assert forall|t: int| 0 <= t < r@.len() implies (#[trigger] r@[t]).wf()
                    && r@[t].room.book == self by {
                    if t >= old_r.len() {
                        assert(r@[t] == added[t - old_r.len()]);
                    } else {
                        assert(r@[t] == old_r[t]);
                    }
                }
                assert forall|a: int, b: int| 0 <= a < b < r@.len() implies key_lt(
                    r@[a].key(),
                    r@[b].key(),
                ) by {
                    if b >= old_r.len() {
                        assert(r@[b] == added[b - old_r.len()]);
                        if a >= old_r.len() {
                            assert(r@[a] == added[a - old_r.len()]);
                        } else {
                            assert(r@[a] == old_r[a]);
                            assert(old_r[a].room.raw_id <= rooms@[i - 1].raw_id);
                        }
                    } else {
                        assert(r@[a] == old_r[a] && r@[b] == old_r[b]);
                    }
                }
                assert forall|t: int| 0 <= t < r@.len() implies (#[trigger] r@[t]).room.raw_id
                    <= rooms@[i as int].raw_id by {
                    if t >= old_r.len() {
                        assert(r@[t] == added[t - old_r.len()]);
                    } else {
                        assert(r@[t] == old_r[t]);
                        assert(old_r[t].room.raw_id <= rooms@[i - 1].raw_id);
                    }
                }
                assert forall|j: int, n: u8|
                    0 <= j < i + 1 && #[trigger] rooms@[j].entry.nouns@.contains_key(n) implies exists|
                    t: int,
                | 0 <= t < r@.len() && r@[t].key() == (rooms@[j].raw_id, n) by {
                    if j < i {
                        let t = choose|t: int|
                            0 <= t < old_r.len() && old_r[t].key() == (rooms@[j].raw_id, n);
                        assert(r@[t] == old_r[t]);
                    } else {
                        let u = choose|u: int| 0 <= u < added.len() && added[u].raw_id == n;
                        assert(r@[old_r.len() + u] == added[u]);
                    }
                }
            }
            i = i + 1;
        }
        proof {
            assert forall|k: (u16, u8)| #[trigger] self.has_noun(k) implies exists|i: int|
                0 <= i < r@.len() && r@[i].key() == k by {
                let j = choose|j: int| 0 <= j < rooms@.len() && rooms@[j].raw_id == k.0;
                assert(rooms@[j].entry.nouns@.contains_key(k.1));
            }
        }
        r
    }

    /// All the conditions of the book, in the order of their (room,
    /// condition) numbers.
    pub fn conditions(&self) -> (r: Vec<Condition<'_>>)
        ensures
            forall|i: int|
                0 <= i < r@.len() ==> (#[trigger] r@[i]).wf() && r@[i].room.book == self,
            forall|i: int, j: int| 0 <= i < j < r@.len() ==> key_lt(r@[i].key(), r@[j].key()),
            forall|k: (u16, u8)|
                #[trigger] self.has_condition(k) ==> exists|i: int| 0 <= i < r@.len() && r@[i].key() == k,
    {
        let rooms = self.rooms();
        let mut r: Vec<Condition<'_>> = Vec::new();
        let mut i: usize = 0;
        while i < rooms.len()
            invariant
                i <= rooms@.len(),
                forall|j: int|
                    0 <= j < rooms@.len() ==> (#[trigger] rooms@[j]).wf() && rooms@[j].book == self,
                forall|a: int, b: int|
                    0 <= a < b < rooms@.len() ==> rooms@[a].raw_id < rooms@[b].raw_id,
                forall|t: int| 0 <= t < r@.len() ==> (#[trigger] r@[t]).wf() && r@[t].room.book == self,
                forall|a: int, b: int| 0 <= a < b < r@.len() ==> key_lt(r@[a].key(), r@[b].key()),
                i == 0 ==> r@.len() == 0,
                i > 0 ==> forall|t: int|
                    0 <= t < r@.len() ==> (#[trigger] r@[t]).room.raw_id <= rooms@[i - 1].raw_id,
                forall|j: int, n: u8|
                    0 <= j < i && #[trigger] rooms@[j].entry.conditions@.contains_key(n) ==> exists|t: int|
                        0 <= t < r@.len() && r@[t].key() == (rooms@[j].raw_id, n),
            decreases rooms@.len() - i,
        {
            let room = rooms[i];
            let mut ns = room.conditions();
            let ghost old_r = r@;
            let ghost added = ns@;
            r.append(&mut ns);
            proof {
                assert(r@ == old_r + added);
                assert forall|t: int| 0 <= t < r@.len() implies (#[trigger] r@[t]).wf()
                    && r@[t].room.book == self by {
                    if t >= old_r.len() {
                        assert(r@[t] == added[t - old_r.len()]);
                    } else {
                        assert(r@[t] == old_r[t]);
                    }
                }
                assert forall|a: int, b: int| 0 <= a < b < r@.len() implies key_lt(
                    r@[a].key(),
                    r@[b].key(),
                ) by {
                    if b >= old_r.len() {
                        assert(r@[b] == added[b - old_r.len()]);
                        if a >= old_r.len() {
                            assert(r@[a] == added[a - old_r.len()]);
                        } else {
                            assert(r@[a] == old_r[a]);
                            assert(old_r[a].room.raw_id <= rooms@[i - 1].raw_id);
                        }
                    } else {
                        assert(r@[a] == old_r[a] && r@[b] == old_r[b]);
                    }
                }
                assert forall|t: int| 0 <= t < r@.len() implies (#[trigger] r@[t]).room.raw_id
                    <= rooms@[i as int].raw_id by {
                    if t >= old_r.len() {
                        assert(r@[t] == added[t - old_r.len()]);
                    } else {
                        assert(r@[t] == old_r[t]);
                        assert(old_r[t].room.raw_id <= rooms@[i - 1].raw_id);
                    }
                }
                assert forall|j: int, n: u8|
                    0 <= j < i + 1 && #[trigger] rooms@[j].entry.conditions@.contains_key(n) implies exists|
                    t: int,
                | 0 <= t < r@.len() && r@[t].key() == (rooms@[j].raw_id, n) by {
                    if j < i {
                        let t = choose|t: int|
                            0 <= t < old_r.len() && old_r[t].key() == (rooms@[j].raw_id, n);
                        assert(r@[t] == old_r[t]);
                    } else {
                        let u = choose|u: int| 0 <= u < added.len() && added[u].raw_id == n;
                        assert(r@[old_r.len() + u] == added[u]);
                    }
                }
            }
            i = i + 1;
        }
        proof {
            assert forall|k: (u16, u8)| #[trigger] self.has_condition(k) implies exists|i: int|
                0 <= i < r@.len() && r@[i].key() == k by {
                let j = choose|j: int| 0 <= j < rooms@.len() && rooms@[j].raw_id == k.0;
                assert(rooms@[j].entry.conditions@.contains_key(k.1));
            }
        }
        r
    }

    /// All the conversations of the book, in the order of their (room, noun,
    /// verb, condition) numbers.
    pub fn conversations(&self) -> (r: Vec<Conversation<'_>>)
        ensures
            forall|i: int|
                0 <= i < r@.len() ==> (#[trigger] r@[i]).wf() && r@[i].book() == self,
            forall|i: int, j: int| 0 <= i < j < r@.len() ==> conv_lt(r@[i].key(), r@[j].key()),
            forall|k: (u16, u8, u8, u8)|
                #[trigger] self.has_conversation(k) ==> exists|i: int|
                    0 <= i < r@.len() && r@[i].key() == k,
    {
        let nouns = self.nouns();
        let mut r: Vec<Conversation<'_>> = Vec::new();
        let mut i: usize = 0;
        while i < nouns.len()
            invariant
                i <= nouns@.len(),
                forall|j: int|
                    0 <= j < nouns@.len() ==> (#[trigger] nouns@[j]).wf() && nouns@[j].room.book
                        == self,
                forall|a: int, b: int|
                    #![trigger nouns@[a], nouns@[b]]
                    0 <= a < b < nouns@.len() ==> key_lt(nouns@[a].key(), nouns@[b].key()),
                forall|t: int| 0 <= t < r@.len() ==> (#[trigger] r@[t]).wf() && r@[t].book() == self,
                forall|a: int, b: int| 0 <= a < b < r@.len() ==> conv_lt(r@[a].key(), r@[b].key()),
                i == 0 ==> r@.len() == 0,
                i > 0 ==> forall|t: int|
                    0 <= t < r@.len() ==> !key_lt(nouns@[i - 1].key(), (#[trigger] r@[t]).noun.key()),
                forall|j: int, k: (u8, u8)|
                    0 <= j < i && #[trigger] nouns@[j].entry.conversations@.contains_key(k) ==> exists|
                        t: int,
                    | 0 <= t < r@.len() && r@[t].key() == (
                        nouns@[j].room.raw_id,
                        nouns@[j].raw_id,
                        k.0,
                        k.1,
                    ),
            decreases nouns@.len() - i,
        {
            let noun = nouns[i];
            let mut cs = noun.conversations();
            let ghost old_r = r@;
            let ghost added = cs@;
            r.append(&mut cs);
            proof {
                assert(r@ == old_r + added);
                assert forall|t: int| 0 <= t < r@.len() implies (#[trigger] r@[t]).wf()
                    && r@[t].book() == self by {
                    if t >= old_r.len() {
                        assert(r@[t] == added[t - old_r.len()]);
                    } else {
                        assert(r@[t] == old_r[t]);
                    }
                }
                assert forall|a: int, b: int| 0 <= a < b < r@.len() implies conv_lt(
                    r@[a].key(),
                    r@[b].key(),
                ) by {
                    if b >= old_r.len() {
                        assert(r@[b] == added[b - old_r.len()]);
                        if a >= old_r.len() {
                            assert(r@[a] == added[a - old_r.len()]);
                        } else {
                            assert(r@[a] == old_r[a]);
                            assert(!key_lt(nouns@[i - 1].key(), old_r[a].noun.key()));
                            assert(key_lt(nouns@[i - 1].key(), nouns@[i as int].key()));
                        }
                    } else {
                        assert(r@[a] == old_r[a] && r@[b] == old_r[b]);
                    }
                }
                assert forall|t: int| 0 <= t < r@.len() implies !key_lt(
                    nouns@[i as int].key(),
                    (#[trigger] r@[t]).noun.key(),
                ) by {
                    if t >= old_r.len() {
                        assert(r@[t] == added[t - old_r.len()]);
                    } else {
                        assert(r@[t] == old_r[t]);
                        assert(!key_lt(nouns@[i - 1].key(), old_r[t].noun.key()));
                        assert(key_lt(nouns@[i - 1].key(), nouns@[i as int].key()));
                    }
                }
                assert forall|j: int, k: (u8, u8)|
                    0 <= j < i + 1 && #[trigger] nouns@[j].entry.conversations@.contains_key(
                        k,
                    ) implies exists|t: int|
                    0 <= t < r@.len() && r@[t].key() == (
                        nouns@[j].room.raw_id,
                        nouns@[j].raw_id,
                        k.0,
                        k.1,
                    ) by {
                    if j < i {
                        let t = choose|t: int|
                            0 <= t < old_r.len() && old_r[t].key() == (
                                nouns@[j].room.raw_id,
                                nouns@[j].raw_id,
                                k.0,
                                k.1,
                            );
                        assert(r@[t] == old_r[t]);
                    } else {
                        let u = choose|u: int| 0 <= u < added.len() && added[u].raw_id == k;
                        assert(r@[old_r.len() + u] == added[u]);
                    }
                }
            }
            i = i + 1;
        }
        proof {
            assert forall|k: (u16, u8, u8, u8)| #[trigger] self.has_conversation(k) implies exists|
                i: int,
            | 0 <= i < r@.len() && r@[i].key() == k by {
                assert(self.has_noun((k.0, k.1)));
                let j = choose|j: int| 0 <= j < nouns@.len() && nouns@[j].key() == (k.0, k.1);
                assert(nouns@[j].entry.conversations@.contains_key((k.2, k.3)));
            }
        }
        r
    }

    /// All the lines of the book, in the order of their (room, noun, verb,
    /// condition, sequence) numbers.
    pub fn lines(&self) -> (r: Vec<Line<'_>>)
        ensures
            forall|i: int|
                0 <= i < r@.len() ==> (#[trigger] r@[i]).wf() && r@[i].conversation.book() == self,
            forall|i: int, j: int| 0 <= i < j < r@.len() ==> line_lt(r@[i].key(), r@[j].key()),
            forall|k: (u16, u8, u8, u8, u8)|
                #[trigger] self.has_line(k) ==> exists|i: int|
                    0 <= i < r@.len() && r@[i].key() == k,
    {
        let convs = self.conversations();
        let mut r: Vec<Line<'_>> = Vec::new();
        let mut i: usize = 0;
        while i < convs.len()
            invariant
                i <= convs@.len(),
                forall|j: int|
                    0 <= j < convs@.len() ==> (#[trigger] convs@[j]).wf() && convs@[j].book() == self,
                forall|a: int, b: int|
                    #![trigger convs@[a], convs@[b]]
                    0 <= a < b < convs@.len() ==> conv_lt(convs@[a].key(), convs@[b].key()),
                forall|t: int| 0 <= t < r@.len() ==> (#[trigger] r@[t]).wf() && r@[t].conversation.book() == self,
                forall|a: int, b: int| 0 <= a < b < r@.len() ==> line_lt(r@[a].key(), r@[b].key()),
                i == 0 ==> r@.len() == 0,
                i > 0 ==> forall|t: int|
                    0 <= t < r@.len() ==> !conv_lt(convs@[i - 1].key(), (#[trigger] r@[t]).conversation.key()),
                forall|j: int, k: u8|
                    0 <= j < i && #[trigger] convs@[j].entry.lines@.contains_key(k) ==> exists|
                        t: int,
                    | 0 <= t < r@.len() && r@[t].key() == (
                        convs@[j].key().0,
                        convs@[j].key().1,
                        convs@[j].key().2,
                        convs@[j].key().3,
                        k,
                    ),
            decreases convs@.len() - i,
        {
            let conv = convs[i];
            let mut cs = conv.lines();
            let ghost old_r = r@;
            let ghost added = cs@;
            r.append(&mut cs);
            proof {
                assert(r@ == old_r + added);
                assert forall|t: int| 0 <= t < r@.len() implies (#[trigger] r@[t]).wf()
                    && r@[t].conversation.book() == self by {
                    if t >= old_r.len() {
                        assert(r@[t] == added[t - old_r.len()]);
                    } else {
                        assert(r@[t] == old_r[t]);
                    }
                }
                assert forall|a: int, b: int| 0 <= a < b < r@.len() implies line_lt(
                    r@[a].key(),
                    r@[b].key(),
                ) by {
                    if b >= old_r.len() {
                        assert(r@[b] == added[b - old_r.len()]);
                        if a >= old_r.len() {
                            assert(r@[a] == added[a - old_r.len()]);
                        } else {
                            assert(r@[a] == old_r[a]);
                            assert(!conv_lt(convs@[i - 1].key(), old_r[a].conversation.key()));
                            assert(conv_lt(convs@[i - 1].key(), convs@[i as int].key()));
                        }
                    } else {
                        assert(r@[a] == old_r[a] && r@[b] == old_r[b]);
                    }
                }
                assert forall|t: int| 0 <= t < r@.len() implies !conv_lt(
                    convs@[i as int].key(),
                    (#[trigger] r@[t]).conversation.key(),
                ) by {
                    if t >= old_r.len() {
                        assert(r@[t] == added[t - old_r.len()]);
                    } else {
                        assert(r@[t] == old_r[t]);
                        assert(!conv_lt(convs@[i - 1].key(), old_r[t].conversation.key()));
                        assert(conv_lt(convs@[i - 1].key(), convs@[i as int].key()));
                    }
                }
                assert forall|j: int, k: u8|
                    0 <= j < i + 1 && #[trigger] convs@[j].entry.lines@.contains_key(
                        k,
                    ) implies exists|t: int|
                    0 <= t < r@.len() && r@[t].key() == (
                        convs@[j].key().0,
                        convs@[j].key().1,
                        convs@[j].key().2,
                        convs@[j].key().3,
                        k,
                    ) by {
                    if j < i {
                        let t = choose|t: int|
                            0 <= t < old_r.len() && old_r[t].key() == (
                                convs@[j].key().0,
                                convs@[j].key().1,
                                convs@[j].key().2,
                                convs@[j].key().3,
                                k,
                            );
                        assert(r@[t] == old_r[t]);
                    } else {
                        let u = choose|u: int| 0 <= u < added.len() && added[u].raw_id == k;
                        assert(r@[old_r.len() + u] == added[u]);
                    }
                }
            }
            i = i + 1;
        }
        proof {
            assert forall|k: (u16, u8, u8, u8, u8)| #[trigger] self.has_line(k) implies exists|
                i: int,
            | 0 <= i < r@.len() && r@[i].key() == k by {
                assert(self.has_conversation((k.0, k.1, k.2, k.3)));
                let j = choose|j: int| 0 <= j < convs@.len() && convs@[j].key() == (k.0, k.1, k.2, k.3);
                assert(convs@[j].entry.lines@.contains_key(k.4));
            }
        }
        r
    }

    /// The room `id`, if the book has it.
    pub fn get_room(&self, id: RoomId) -> (r: Option<Room<'_>>)
        ensures
            match r {
                Some(room) => room.wf() && room.book == self && room.raw_id == id.0.0,
                None => !self.rooms@.contains_key(id.0.0),
            },
    {
        let n = id.room_num();
        match self.rooms.get(&n) {
            Some(entry) => Some(Room { book: self, raw_id: n, entry }),
            None => None,
        }
    }

    /// The condition `id`, if the book has its room and the room has it.
    pub fn get_condition(&self, id: ConditionId) -> (c: Option<Condition<'_>>)
        ensures
            match c {
                Some(cond) => cond.wf() && cond.room.book == self && cond.key() == (
                    id.room.0.0,
                    id.condition.0,
                ),
                None => !self.has_condition((id.room.0.0, id.condition.0)),
            },
    {
        match self.get_room(id.room) {
            Some(room) => room.get_condition_inner(id.condition.0),
            None => None,
        }
    }

    /// The noun `id`, if the book has its room and the room has it.
    pub fn get_noun(&self, id: NounId) -> (n: Option<Noun<'_>>)
        ensures
            match n {
                Some(noun) => noun.wf() && noun.room.book == self && noun.key() == id.pair(),
                None => !self.has_noun(id.pair()),
            },
    {
        match self.get_room(id.room) {
            Some(room) => room.get_noun_inner(id.noun.0),
            None => None,
        }
    }

    /// The conversation `id`, if the book has its noun and the noun has it.
    pub fn get_conversation(&self, id: ConversationId) -> (c: Option<Conversation<'_>>)
        ensures
            match c {
                Some(conv) => conv.wf() && conv.book() == self && conv.key() == id.quad(),
                None => !self.has_conversation(id.quad()),
            },
    {
        match self.get_noun(id.noun) {
            Some(noun) => noun.get_conversation_inner((id.key.verb.0, id.key.condition.0)),
            None => None,
        }
    }

    /// The line `id`, if the book has its conversation and the conversation
    /// has it.
    pub fn get_line(&self, id: LineId) -> (l: Option<Line<'_>>)
        ensures
            match l {
                Some(line) => line.wf() && line.conversation.book() == self && line.key() == (
                    id.conversation.quad().0,
                    id.conversation.quad().1,
                    id.conversation.quad().2,
                    id.conversation.quad().3,
                    id.sequence.0,
                ),
                None => !self.has_line(
                    (
                        id.conversation.quad().0,
                        id.conversation.quad().1,
                        id.conversation.quad().2,
                        id.conversation.quad().3,
                        id.sequence.0,
                    ),
                ),
            },
    {
        match self.get_conversation(id.conversation) {
            Some(conv) => conv.get_line_inner(id.sequence.0),
            None => None,
        }
    }
}

} // verus!
