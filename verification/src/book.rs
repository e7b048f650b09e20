//! Voice-over scripts ("books"): the rooms, nouns, conversations and lines
//! of a game's messages, with the roles that speak them.
//!
//! A book is a tree: rooms hold conditions and nouns, nouns hold
//! conversations (keyed by verb and condition), conversations hold lines
//! (keyed by sequence number). Roles and verbs are listed beside the rooms.
use std::collections::BTreeMap;

use vstd::prelude::*;

use crate::book::ids::{RawRoleId, RawTalkerId};
use crate::book::rich_text::{RichText, TextStyle};
use crate::formats::aseprite::props::keys_sorted;

pub mod file_format;
pub mod ids;
pub mod navigation;
pub mod rich_text;

verus! {

broadcast use vstd::std_specs::btree::group_btree_axioms;

/// A condition of a room, with the description the config gave it.
pub struct ConditionEntry {
    pub desc: Option<String>,
}

/// A line: its text, the talker number of the message, and its role.
pub struct LineEntry {
    pub text: RichText,
    pub talker: RawTalkerId,
    pub role: RawRoleId,
}

/// A conversation: its lines by sequence number.
pub struct ConversationEntry {
    pub lines: BTreeMap<u8, LineEntry>,
}

/// A noun: its description, whether it is a cutscene, and its
/// conversations by (verb, condition).
pub struct NounEntry {
    pub desc: Option<String>,
    pub is_cutscene: bool,
    pub conversations: BTreeMap<(u8, u8), ConversationEntry>,
}

/// A room: its name, and its conditions and nouns by number.
pub struct RoomEntry {
    pub name: Option<String>,
    pub conditions: BTreeMap<u8, ConditionEntry>,
    pub nouns: BTreeMap<u8, NounEntry>,
}

/// A role: its full and short names.
pub struct RoleEntry {
    pub name: String,
    pub short_name: String,
}

/// A verb: its name.
pub struct VerbEntry {
    pub name: String,
}

/// A book: its project's name, its roles (by identifier, in the order of
/// the identifiers' UTF-8 bytes), its verbs and its rooms by number.
pub struct Book {
    pub project_name: String,
    pub roles: Vec<(String, RoleEntry)>,
    pub verbs: BTreeMap<u8, VerbEntry>,
    pub rooms: BTreeMap<u16, RoomEntry>,
}

/// The characters of an optional string.
pub open spec fn opt_str(s: Option<String>) -> Option<Seq<char>> {
    match s {
        Some(x) => Some(x@),
        None => None,
    }
}

/// The model of a line: the text's runs, the talker, the role.
pub struct LineModel {
    pub text: Seq<(Seq<char>, TextStyle)>,
    pub talker: u8,
    pub role: Seq<char>,
}

/// The model of a line entry.
pub open spec fn line_model(e: LineEntry) -> LineModel {
    LineModel { text: e.text@, talker: e.talker.0, role: e.role.0@ }
}

/// The model of a conversation: its lines by sequence number.
pub open spec fn conversation_model(e: ConversationEntry) -> Map<u8, LineModel> {
    e.lines@.map_values(|l: LineEntry| line_model(l))
}

/// The model of a noun.
pub struct NounModel {
    pub desc: Option<Seq<char>>,
    pub is_cutscene: bool,
    pub conversations: Map<(u8, u8), Map<u8, LineModel>>,
}

/// The model of a noun entry.
pub open spec fn noun_model(e: NounEntry) -> NounModel {
    NounModel {
        desc: opt_str(e.desc),
        is_cutscene: e.is_cutscene,
        conversations: e.conversations@.map_values(|c: ConversationEntry| conversation_model(c)),
    }
}

/// The model of a room.
pub struct RoomModel {
    pub name: Option<Seq<char>>,
    pub conditions: Map<u8, Option<Seq<char>>>,
    pub nouns: Map<u8, NounModel>,
}

/// The model of a room entry.
pub open spec fn room_model(e: RoomEntry) -> RoomModel {
    RoomModel {
        name: opt_str(e.name),
        conditions: e.conditions@.map_values(|c: ConditionEntry| opt_str(c.desc)),
        nouns: e.nouns@.map_values(|n: NounEntry| noun_model(n)),
    }
}

/// The roles as a sequence of identifiers with their (name, short name).
pub open spec fn roles_model(roles: Seq<(String, RoleEntry)>) -> Seq<
    (Seq<char>, (Seq<char>, Seq<char>)),
> {
    Seq::new(roles.len(), |i: int| (roles[i].0@, (roles[i].1.name@, roles[i].1.short_name@)))
}

impl Book {
    /// The book is well formed: its roles are in increasing order of their
    /// identifiers, so that none occurs twice.
    pub open spec fn wf(&self) -> bool {
        keys_sorted(roles_model(self.roles@))
    }

    /// The name of the book's project.
    pub fn project_name(&self) -> (s: &str)
        ensures
            s@ == self.project_name@,
    {
        self.project_name.as_str()
    }

}

/// A sequence number skipped in a conversation: the number that was
/// expected, and the one that came next.
#[derive(Debug, Clone, Copy, PartialEq, Eq, Structural)]
pub struct SkippedSequence {
    pub expected: u8,
    pub next: u8,
}

/// The number expected for the line `k` of a conversation whose line
/// numbers are `keys`: one more than the line before it, or 1 for the first.
pub open spec fn expected_before(keys: Set<u8>, k: u8) -> int {
    if exists|j: u8| keys.contains(j) && j < k {
        (choose|j: u8| keys.contains(j) && j < k && forall|j2: u8|
            keys.contains(j2) && j2 < k ==> j2 <= j) + 1
    } else {
        1
    }
}

/// The number expected for the line `id` is one more than the greatest
/// line number below it, or 1 when there is none.
proof fn lemma_expected_before(dom: Set<u8>, id: u8, has_prev: bool, expected_next: u8)
    requires
        has_prev <==> exists|j: u8| dom.contains(j) && j < id,
        has_prev ==> 1 <= expected_next && dom.contains((expected_next - 1) as u8)
            && expected_next - 1 < id && forall|j: u8|
            dom.contains(j) && j < id ==> j <= expected_next - 1,
        !has_prev ==> expected_next == 1,
    ensures
        expected_before(dom, id) == expected_next,
{
    reveal(expected_before);
    if has_prev {
        let w = (expected_next - 1) as u8;
        let c = choose|j: u8| dom.contains(j) && j < id && forall|j2: u8|
            dom.contains(j2) && j2 < id ==> j2 <= j;
        assert(dom.contains(w) && w < id && forall|j2: u8| dom.contains(j2) && j2 < id ==> j2 <= w);
        assert(c == w);
    }
}

/// The skipped sequence numbers among the line numbers `dom` below `k`, in
/// increasing order: each line whose number is not the one expected there.
pub open spec fn skipped_below(dom: Set<u8>, k: int) -> Seq<SkippedSequence>
    decreases k,
{
    if k <= 0 {
        Seq::<SkippedSequence>::empty()
    } else {
        let x = (k - 1) as u8;
        skipped_below(dom, k - 1) + if dom.contains(x) && expected_before(dom, x) != x {
            seq![SkippedSequence { expected: expected_before(dom, x) as u8, next: x }]
        } else {
            Seq::<SkippedSequence>::empty()
        }
    }
}

impl ConversationEntry {
    /// Checks that the conversation's lines are numbered 1, 2, 3, ... with no
    /// gap: `Ok` when they are, else every line, in increasing order, whose
    /// number is not one more than the line before it (or 1 for the first),
    /// with the number that was expected there.
    #[verifier::rlimit(60)]
    pub fn validate_complete(&self) -> (r: Result<(), Vec<SkippedSequence>>)
        requires
            !self.lines@.contains_key(255),
        ensures
            match r {
                Ok(()) => skipped_below(self.lines@.dom(), 256).len() == 0,
                Err(v) => v@.len() > 0 && v@ == skipped_below(self.lines@.dom(), 256),
            },
    {
        let ghost dom = self.lines@.dom();
        let mut errors: Vec<SkippedSequence> = Vec::new();
        let mut expected_next: u8 = 1;
        let mut has_prev = false;
        let mut k: u16 = 0;
        while k < 256
            invariant
                k <= 256,
                dom == self.lines@.dom(),
                !dom.contains(255),
                has_prev <==> exists|j: u8| dom.contains(j) && j < k,
                has_prev ==> 1 <= expected_next && dom.contains((expected_next - 1) as u8)
                    && expected_next - 1 < k && forall|j: u8|
                    dom.contains(j) && j < k ==> j <= expected_next - 1,
                !has_prev ==> expected_next == 1,
                errors@ == skipped_below(dom, k as int),
            decreases 256 - k,
        {
            let id = k as u8;
            if self.lines.contains_key(&id) {
                proof {
                    lemma_expected_before(dom, id, has_prev, expected_next);
                }
                if id != expected_next {
                    errors.push(SkippedSequence { expected: expected_next, next: id });
                }
                assert(id != 255);
                expected_next = id + 1;
                has_prev = true;
            }
            assert(errors@ =~= skipped_below(dom, k + 1));
            k = k + 1;
        }
        if errors.len() == 0 {
            Ok(())
        } else {
            Err(errors)
        }
    }
}

} // verus!
