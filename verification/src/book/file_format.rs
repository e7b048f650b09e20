//! The flat file format of a book, to be reused and accessed from different
//! libraries and languages.
//!
//! The format lists the book's roles, verbs, rooms, conditions, nouns,
//! conversations and lines, each item naming its parent by its index in
//! the parent's list. It does not hold the book's indexes, but enough to
//! rebuild its tree, as [`deserialize_book`] does.
use std::collections::BTreeMap;

use vstd::prelude::*;

use crate::book::ids::{RawRoleId, RawTalkerId};
use crate::book::rich_text::{item_model, RichText, TextItem, TextStyle};
use crate::book::{
    conversation_model, line_model, noun_model, opt_str, room_model, roles_model,
    ConditionEntry, ConversationEntry, LineEntry, LineModel, NounEntry, NounModel, RoleEntry,
    RoomEntry, RoomModel, VerbEntry, Book,
};
use crate::formats::aseprite::props::{
    keyed, keys_sorted, lemma_lookup_map_values, lookup, map_entry_values, set_sorted,
};

pub mod flatten;
pub mod round_trip;

verus! {

broadcast use vstd::std_specs::btree::group_btree_axioms;

/// The index of a role in the format's roles.
#[derive(Debug, Clone, Copy, PartialEq, Eq, Structural)]
pub struct RoleIndex(pub usize);

/// The index of a verb in the format's verbs.
#[derive(Debug, Clone, Copy, PartialEq, Eq, Structural)]
pub struct VerbIndex(pub usize);

/// The index of a room in the format's rooms.
#[derive(Debug, Clone, Copy, PartialEq, Eq, Structural)]
pub struct RoomIndex(pub usize);

/// The index of a condition in the format's conditions.
#[derive(Debug, Clone, Copy, PartialEq, Eq, Structural)]
pub struct ConditionIndex(pub usize);

/// The index of a noun in the format's nouns.
#[derive(Debug, Clone, Copy, PartialEq, Eq, Structural)]
pub struct NounIndex(pub usize);

/// The index of a conversation in the format's conversations.
#[derive(Debug, Clone, Copy, PartialEq, Eq, Structural)]
pub struct ConversationIndex(pub usize);

/// A role: its identifier, its raw identifier, its names.
#[derive(Debug, Clone)]
pub struct RoleItem {
    pub id: String,
    pub raw: String,
    pub name: String,
    pub short_name: String,
}

/// A verb: its identifier, number and name.
#[derive(Debug, Clone)]
pub struct VerbItem {
    pub id: String,
    pub num: u8,
    pub name: String,
}

/// A room: its identifier, number and name.
#[derive(Debug, Clone)]
pub struct RoomItem {
    pub id: String,
    pub num: u16,
    pub name: Option<String>,
}

/// A condition: its identifier, number, description and room.
#[derive(Debug, Clone)]
pub struct ConditionItem {
    pub id: String,
    pub num: u8,
    pub description: Option<String>,
    pub parent_room: RoomIndex,
}

/// A noun: its identifier, number, description, whether it is a
/// cutscene, and its room.
#[derive(Debug, Clone)]
pub struct NounItem {
    pub id: String,
    pub num: u8,
    pub description: Option<String>,
    pub is_cutscene: bool,
    pub parent_room: RoomIndex,
}

/// A conversation: its identifier, verb, condition and noun.
#[derive(Debug, Clone)]
pub struct ConversationItem {
    pub id: String,
    pub verb: Option<VerbIndex>,
    pub condition: Option<ConditionIndex>,
    pub parent_noun: NounIndex,
}

/// The style of a rich segment.
#[derive(Debug, Clone, Copy, PartialEq, Eq, Structural)]
pub struct RichStyle {
    pub bold: bool,
    pub italic: bool,
}

/// A segment of text with a style.
#[derive(Debug, Clone)]
pub struct RichSegment {
    pub text: String,
    pub style: RichStyle,
}

/// A segment of a line's text: plain, or with a style.
#[derive(Debug, Clone)]
pub enum LineSegment {
    Plain(String),
    Rich(RichSegment),
}

/// The text of a line: one plain string, or segments.
#[derive(Debug, Clone)]
pub enum LineText {
    Simple(String),
    Rich(Vec<LineSegment>),
}

/// A line: its identifier, sequence number, talker number, role, text and
/// conversation.
#[derive(Debug, Clone)]
pub struct LineItem {
    pub id: String,
    pub num: u8,
    pub talker_num: u8,
    pub role: RoleIndex,
    pub text: LineText,
    pub parent_conversation: ConversationIndex,
}

/// A book in the flat format.
#[derive(Debug, Clone)]
pub struct BookFormat {
    pub project_name: String,
    pub roles: Vec<RoleItem>,
    pub verbs: Vec<VerbItem>,
    pub rooms: Vec<RoomItem>,
    pub conditions: Vec<ConditionItem>,
    pub nouns: Vec<NounItem>,
    pub conversations: Vec<ConversationItem>,
    pub lines: Vec<LineItem>,
}

/// Whether every index in the format names an item of its list (reading a
/// book with a dangling index stops the program).
pub open spec fn refs_in_range(f: BookFormat) -> bool {
    &&& forall|i: int|
        0 <= i < f.conditions@.len() ==> (#[trigger] f.conditions@[i]).parent_room.0 < f.rooms@.len()
    &&& forall|i: int|
        0 <= i < f.nouns@.len() ==> (#[trigger] f.nouns@[i]).parent_room.0 < f.rooms@.len()
    &&& forall|i: int|
        0 <= i < f.conversations@.len() ==> {
            let c = #[trigger] f.conversations@[i];
            &&& c.parent_noun.0 < f.nouns@.len()
            &&& c.verb matches Some(v) ==> v.0 < f.verbs@.len()
            &&& c.condition matches Some(x) ==> x.0 < f.conditions@.len()
        }
    &&& forall|i: int|
        0 <= i < f.lines@.len() ==> {
            let l = #[trigger] f.lines@[i];
            &&& l.parent_conversation.0 < f.conversations@.len()
            &&& l.role.0 < f.roles@.len()
        }
}

/// The plain style.
pub open spec fn plain_style() -> TextStyle {
    TextStyle { bold: false, italic: false }
}

/// The run that a segment stands for.
pub open spec fn segment_model(s: LineSegment) -> (Seq<char>, TextStyle) {
    match s {
        LineSegment::Plain(t) => (t@, plain_style()),
        LineSegment::Rich(r) => (r.text@, TextStyle { bold: r.style.bold, italic: r.style.italic }),
    }
}

/// The runs that a line's text stands for.
pub open spec fn line_text_model(t: LineText) -> Seq<(Seq<char>, TextStyle)> {
    match t {
        LineText::Simple(s) => seq![(s@, plain_style())],
        LineText::Rich(segs) => Seq::new(segs@.len(), |i: int| segment_model(segs@[i])),
    }
}

/// Reads a line's text as rich text: one plain run for simple text, else
/// one run per segment.
pub fn deserialize_rich_text(rich_text_format: &LineText) -> (t: RichText)
    ensures
        t@ == line_text_model(*rich_text_format),
{
    let mut builder = RichText::new();
    match rich_text_format {
        LineText::Simple(text) => {
            builder.add_plain_text(text.as_str());
            assert(builder@ =~= line_text_model(*rich_text_format));
        },
        LineText::Rich(segments) => {
            let mut i: usize = 0;
            while i < segments.len()
                invariant
                    i <= segments@.len(),
                    builder@ == Seq::new(i as nat, |j: int| segment_model(segments@[j])),
                decreases segments@.len() - i,
            {
                match &segments[i] {
                    LineSegment::Plain(text) => {
                        builder.add_plain_text(text.as_str());
                    },
                    LineSegment::Rich(rich) => {
                        builder.add_text(
                            rich.text.as_str(),
                            TextStyle::of_plain().set_bold(rich.style.bold).set_italic(
                                rich.style.italic,
                            ),
                        );
                    },
                }
                i = i + 1;
                assert(builder@ =~= Seq::new(i as nat, |j: int| segment_model(segments@[j])));
            }
        },
    }
    builder
}

/// The segment of a run: plain text for a plain run, else the text with its
/// style.
pub fn build_line_text_segment(segment: &TextItem) -> (s: LineSegment)
    ensures
        segment_model(s) == item_model(*segment),
        s is Plain <==> segment.style == plain_style(),
{
    if segment.style.is_plain() {
        LineSegment::Plain(segment.text.clone())
    } else {
        LineSegment::Rich(
            RichSegment {
                text: segment.text.clone(),
                style: RichStyle { bold: segment.style.bold, italic: segment.style.italic },
            },
        )
    }
}

/// The text of a line: simple text when it has no run (the empty string)
/// or one plain run, else its runs as segments.
pub fn build_line_text(text: &RichText) -> (t: LineText)
    ensures
        line_text_model(t) == if text@.len() == 0 {
            seq![(Seq::<char>::empty(), plain_style())]
        } else {
            text@
        },
        t is Simple <==> text@.len() == 0 || (text@.len() == 1 && text@[0].1 == plain_style()),
{
    let n = text.items.len();
    if n == 0 {
        let t = LineText::Simple(String::new());
        assert(line_text_model(t) =~= seq![(Seq::<char>::empty(), plain_style())]);
        return t;
    }
    if n == 1 && text.items[0].style.is_plain() {
        let t = LineText::Simple(text.items[0].text.clone());
        assert(line_text_model(t) =~= text@);
        return t;
    }
    let mut segments: Vec<LineSegment> = Vec::new();
    let mut i: usize = 0;
    while i < n
        invariant
            n == text.items@.len(),
            i <= n,
            segments@.len() == i,
            forall|j: int| 0 <= j < i ==> segment_model(#[trigger] segments@[j]) == text@[j],
        decreases n - i,
    {
        segments.push(build_line_text_segment(&text.items[i]));
        i = i + 1;
    }
    let t = LineText::Rich(segments);
    assert(line_text_model(t) =~= text@);
    t
}

/// The room number of the room at index `r`.
pub open spec fn room_num_at(f: BookFormat, r: int) -> u16 {
    f.rooms@[r].num
}

/// The (room, noun) numbers of the noun at index `n`.
pub open spec fn noun_pair_at(f: BookFormat, n: int) -> (u16, u8) {
    (room_num_at(f, f.nouns@[n].parent_room.0 as int), f.nouns@[n].num)
}

/// The (verb, condition) numbers of the conversation at index `c`, 0 for
/// none of either.
pub open spec fn conv_key_at(f: BookFormat, c: int) -> (u8, u8) {
    let conv = f.conversations@[c];
    (
        match conv.verb {
            Some(v) => f.verbs@[v.0 as int].num,
            None => 0,
        },
        match conv.condition {
            Some(x) => f.conditions@[x.0 as int].num,
            None => 0,
        },
    )
}

/// The (room, noun, verb, condition) numbers of the conversation at index `c`.
pub open spec fn conv_quad_at(f: BookFormat, c: int) -> (u16, u8, u8, u8) {
    let n = noun_pair_at(f, f.conversations@[c].parent_noun.0 as int);
    let k = conv_key_at(f, c);
    (n.0, n.1, k.0, k.1)
}

/// The line that the line item at index `l` stands for: its text, talker,
/// and the raw identifier of its role item (the role's own identifier).
pub open spec fn line_item_model(f: BookFormat, l: int) -> LineModel {
    let item = f.lines@[l];
    LineModel {
        text: line_text_model(item.text),
        talker: item.talker_num,
        role: f.roles@[item.role.0 as int].raw@,
    }
}

/// `m[k]`, or the empty map when `m` has no `k`.
pub open spec fn get_or_empty<K, K2, V>(m: Map<K, Map<K2, V>>, k: K) -> Map<K2, V> {
    if m.contains_key(k) {
        m[k]
    } else {
        Map::empty()
    }
}

/// The lines of the first `n` line items, by conversation and then by
/// sequence number; a later line with the same numbers replaces an earlier.
pub open spec fn line_map_upto(f: BookFormat, n: int) -> Map<
    (u16, u8, u8, u8),
    Map<u8, LineModel>,
>
    decreases n,
{
    if n <= 0 {
        Map::empty()
    } else {
        let prev = line_map_upto(f, n - 1);
        let key = conv_quad_at(f, f.lines@[n - 1].parent_conversation.0 as int);
        prev.insert(key, get_or_empty(prev, key).insert(f.lines@[n - 1].num, line_item_model(f, n - 1)))
    }
}

/// The model of a map of line maps.
pub open spec fn line_map_model(m: BTreeMap<(u16, u8, u8, u8), BTreeMap<u8, LineEntry>>) -> Map<
    (u16, u8, u8, u8),
    Map<u8, LineModel>,
> {
    m@.map_values(|inner: BTreeMap<u8, LineEntry>| inner@.map_values(|e: LineEntry| line_model(e)))
}

/// Collects the lines of the format by conversation.
pub fn make_line_map(
    f: &BookFormat,
    role_ids: &Vec<String>,
    conversation_ids: &Vec<(u16, u8, u8, u8)>,
) -> (m: BTreeMap<(u16, u8, u8, u8), BTreeMap<u8, LineEntry>>)
    requires
        refs_in_range(*f),
        role_ids@.len() == f.roles@.len(),
        forall|i: int| 0 <= i < role_ids@.len() ==> (#[trigger] role_ids@[i])@ == f.roles@[i].raw@,
        conversation_ids@.len() == f.conversations@.len(),
        forall|i: int|
            0 <= i < conversation_ids@.len() ==> #[trigger] conversation_ids@[i] == conv_quad_at(
                *f,
                i,
            ),
    ensures
        line_map_model(m) == line_map_upto(*f, f.lines@.len() as int),
{
    let mut line_map: BTreeMap<(u16, u8, u8, u8), BTreeMap<u8, LineEntry>> = BTreeMap::new();
    let mut i: usize = 0;
    assert(line_map_model(line_map) =~= line_map_upto(*f, 0));
    while i < f.lines.len()
        invariant
            i <= f.lines@.len(),
            refs_in_range(*f),
            role_ids@.len() == f.roles@.len(),
            forall|j: int| 0 <= j < role_ids@.len() ==> (#[trigger] role_ids@[j])@ == f.roles@[j].raw@,
            conversation_ids@.len() == f.conversations@.len(),
            forall|j: int|
                0 <= j < conversation_ids@.len() ==> #[trigger] conversation_ids@[j]
                    == conv_quad_at(*f, j),
            line_map_model(line_map) == line_map_upto(*f, i as int),
        decreases f.lines@.len() - i,
    {
        let line = &f.lines[i];
        assert(line.parent_conversation.0 < f.conversations@.len());
        assert(line.role.0 < f.roles@.len());
        let conversation_id = conversation_ids[line.parent_conversation.0];
        let role = RawRoleId::new(role_ids[line.role.0].clone());
        let entry = LineEntry {
            role,
            talker: RawTalkerId::new(line.talker_num),
            text: deserialize_rich_text(&line.text),
        };
        let ghost before = line_map_model(line_map);
        let mut inner = match line_map.remove(&conversation_id) {
            Some(m) => m,
            None => BTreeMap::new(),
        };
        let ghost inner_before = inner@.map_values(|e: LineEntry| line_model(e));
        assert(inner_before =~= get_or_empty(before, conversation_id));
        inner.insert(line.num, entry);
        line_map.insert(conversation_id, inner);
        assert(line_model(entry) == line_item_model(*f, i as int));
        assert(inner@.map_values(|e: LineEntry| line_model(e)) =~= inner_before.insert(
            line.num,
            line_model(entry),
        ));
        assert(line_map_model(line_map) =~= before.insert(
            conversation_id,
            get_or_empty(before, conversation_id).insert(line.num, line_item_model(*f, i as int)),
        ));
        i = i + 1;
    }
    line_map
}

/// `m[k]`, if `m` has `k`.
pub open spec fn map_get<K, V>(m: Map<K, V>, k: K) -> Option<V> {
    if m.contains_key(k) {
        Some(m[k])
    } else {
        None
    }
}

/// A copy of an optional string.
pub(crate) fn clone_opt_string(s: &Option<String>) -> (r: Option<String>)
    ensures
        opt_str(r) == opt_str(*s),
{
    match s {
        Some(x) => Some(x.clone()),
        None => None,
    }
}

/// The conversations' keys: (verb, condition) numbers, 0 for none of either.
fn conv_key(f: &BookFormat, conv: &ConversationItem, Ghost(c): Ghost<int>) -> (k: (u8, u8))
    requires
        refs_in_range(*f),
        0 <= c < f.conversations@.len(),
        *conv == f.conversations@[c],
    ensures
        k == conv_key_at(*f, c),
{
    let verb = match conv.verb {
        Some(v) => f.verbs[v.0].num,
        None => 0,
    };
    let condition = match conv.condition {
        Some(x) => f.conditions[x.0].num,
        None => 0,
    };
    (verb, condition)
}

/// After the first `n` conversation items: the lines that no conversation
/// has taken yet, and the conversations by noun and then by key. Each
/// conversation takes the lines of its numbers; a later conversation with
/// the same numbers replaces it and finds no lines left.
pub open spec fn conv_map_upto(
    f: BookFormat,
    lines: Map<(u16, u8, u8, u8), Map<u8, LineModel>>,
    n: int,
) -> (Map<(u16, u8, u8, u8), Map<u8, LineModel>>, Map<(u16, u8), Map<(u8, u8), Map<u8, LineModel>>>)
    decreases n,
{
    if n <= 0 {
        (lines, Map::empty())
    } else {
        let prev = conv_map_upto(f, lines, n - 1);
        let q = conv_quad_at(f, n - 1);
        let noun = (q.0, q.1);
        (
            prev.0.remove(q),
            prev.1.insert(noun, get_or_empty(prev.1, noun).insert((q.2, q.3), get_or_empty(prev.0, q))),
        )
    }
}

/// The model of conversations by noun.
pub open spec fn conv_map_model(m: BTreeMap<(u16, u8), BTreeMap<(u8, u8), ConversationEntry>>) -> Map<
    (u16, u8),
    Map<(u8, u8), Map<u8, LineModel>>,
> {
    m@.map_values(
        |inner: BTreeMap<(u8, u8), ConversationEntry>|
            inner@.map_values(|c: ConversationEntry| conversation_model(c)),
    )
}

/// Collects the conversations of the format by noun, each with the lines
/// of its numbers.
pub fn make_conv_map(
    f: &BookFormat,
    noun_ids: &Vec<(u16, u8)>,
    line_map: BTreeMap<(u16, u8, u8, u8), BTreeMap<u8, LineEntry>>,
) -> (m: BTreeMap<(u16, u8), BTreeMap<(u8, u8), ConversationEntry>>)
    requires
        refs_in_range(*f),
        noun_ids@.len() == f.nouns@.len(),
        forall|i: int| 0 <= i < noun_ids@.len() ==> #[trigger] noun_ids@[i] == noun_pair_at(*f, i),
    ensures
        conv_map_model(m) == conv_map_upto(
            *f,
            line_map_model(line_map),
            f.conversations@.len() as int,
        ).1,
{
    let ghost lines0 = line_map_model(line_map);
    let mut line_map = line_map;
    let mut conv_map: BTreeMap<(u16, u8), BTreeMap<(u8, u8), ConversationEntry>> = BTreeMap::new();
    let mut i: usize = 0;
    assert(conv_map_model(conv_map) =~= conv_map_upto(*f, lines0, 0).1);
    while i < f.conversations.len()
        invariant
            i <= f.conversations@.len(),
            refs_in_range(*f),
            noun_ids@.len() == f.nouns@.len(),
            forall|j: int| 0 <= j < noun_ids@.len() ==> #[trigger] noun_ids@[j] == noun_pair_at(*f, j),
            line_map_model(line_map) == conv_map_upto(*f, lines0, i as int).0,
            conv_map_model(conv_map) == conv_map_upto(*f, lines0, i as int).1,
        decreases f.conversations@.len() - i,
    {
        let conv = &f.conversations[i];
        assert(conv.parent_noun.0 < f.nouns@.len());
        let noun_id = noun_ids[conv.parent_noun.0];
        let key = conv_key(f, conv, Ghost(i as int));
        let quad = (noun_id.0, noun_id.1, key.0, key.1);
        assert(quad == conv_quad_at(*f, i as int));
        let ghost lines_before = line_map_model(line_map);
        let ghost convs_before = conv_map_model(conv_map);
        let lines = match line_map.remove(&quad) {
            Some(m) => m,
            None => BTreeMap::new(),
        };
        assert(line_map_model(line_map) =~= lines_before.remove(quad));
        let entry = ConversationEntry { lines };
        assert(conversation_model(entry) =~= get_or_empty(lines_before, quad));
        let mut inner = match conv_map.remove(&noun_id) {
            Some(m) => m,
            None => BTreeMap::new(),
        };
        let ghost inner_before = inner@.map_values(|c: ConversationEntry| conversation_model(c));
        assert(inner_before =~= get_or_empty(convs_before, noun_id));
        inner.insert(key, entry);
        assert(inner@.map_values(|c: ConversationEntry| conversation_model(c)) =~= inner_before.insert(
            key,
            conversation_model(entry),
        ));
        conv_map.insert(noun_id, inner);
        assert(conv_map_model(conv_map) =~= convs_before.insert(
            noun_id,
            get_or_empty(convs_before, noun_id).insert(key, get_or_empty(lines_before, quad)),
        ));
        i = i + 1;
    }
    conv_map
}

/// The noun that the noun item at index `n` stands for, with the given
/// conversations.
pub open spec fn noun_item_model(
    f: BookFormat,
    n: int,
    conversations: Map<(u8, u8), Map<u8, LineModel>>,
) -> NounModel {
    NounModel {
        desc: opt_str(f.nouns@[n].description),
        is_cutscene: f.nouns@[n].is_cutscene,
        conversations,
    }
}

/// After the first `n` noun items: the conversations that no noun has taken
/// yet, and the nouns by room and then by number. Each noun takes the
/// conversations of its numbers; a later noun with the same numbers
/// replaces it and finds none left.
pub open spec fn noun_map_upto(
    f: BookFormat,
    convs: Map<(u16, u8), Map<(u8, u8), Map<u8, LineModel>>>,
    n: int,
) -> (Map<(u16, u8), Map<(u8, u8), Map<u8, LineModel>>>, Map<u16, Map<u8, NounModel>>)
    decreases n,
{
    if n <= 0 {
        (convs, Map::empty())
    } else {
        let prev = noun_map_upto(f, convs, n - 1);
        let p = noun_pair_at(f, n - 1);
        (
            prev.0.remove(p),
            prev.1.insert(
                p.0,
                get_or_empty(prev.1, p.0).insert(p.1, noun_item_model(f, n - 1, get_or_empty(prev.0, p))),
            ),
        )
    }
}

/// The model of nouns by room.
pub open spec fn noun_map_model(m: BTreeMap<u16, BTreeMap<u8, NounEntry>>) -> Map<
    u16,
    Map<u8, NounModel>,
> {
    m@.map_values(|inner: BTreeMap<u8, NounEntry>| inner@.map_values(|e: NounEntry| noun_model(e)))
}

/// Collects the nouns of the format by room, each with the conversations
/// of its numbers.
pub fn make_noun_map(
    f: &BookFormat,
    room_ids: &Vec<u16>,
    conv_map: BTreeMap<(u16, u8), BTreeMap<(u8, u8), ConversationEntry>>,
) -> (m: BTreeMap<u16, BTreeMap<u8, NounEntry>>)
    requires
        refs_in_range(*f),
        room_ids@.len() == f.rooms@.len(),
        forall|i: int| 0 <= i < room_ids@.len() ==> #[trigger] room_ids@[i] == room_num_at(*f, i),
    ensures
        noun_map_model(m) == noun_map_upto(*f, conv_map_model(conv_map), f.nouns@.len() as int).1,
{
    let ghost convs0 = conv_map_model(conv_map);
    let mut conv_map = conv_map;
    let mut noun_map: BTreeMap<u16, BTreeMap<u8, NounEntry>> = BTreeMap::new();
    let mut i: usize = 0;
    assert(noun_map_model(noun_map) =~= noun_map_upto(*f, convs0, 0).1);
    while i < f.nouns.len()
        invariant
            i <= f.nouns@.len(),
            refs_in_range(*f),
            room_ids@.len() == f.rooms@.len(),
            forall|j: int| 0 <= j < room_ids@.len() ==> #[trigger] room_ids@[j] == room_num_at(*f, j),
            conv_map_model(conv_map) == noun_map_upto(*f, convs0, i as int).0,
            noun_map_model(noun_map) == noun_map_upto(*f, convs0, i as int).1,
        decreases f.nouns@.len() - i,
    {
        let noun = &f.nouns[i];
        assert(noun.parent_room.0 < f.rooms@.len());
        let room_id = room_ids[noun.parent_room.0];
        let noun_id = (room_id, noun.num);
        assert(noun_id == noun_pair_at(*f, i as int));
        let ghost convs_before = conv_map_model(conv_map);
        let ghost nouns_before = noun_map_model(noun_map);
        let conversations = match conv_map.remove(&noun_id) {
            Some(m) => m,
            None => BTreeMap::new(),
        };
        assert(conv_map_model(conv_map) =~= convs_before.remove(noun_id));
        let entry = NounEntry {
            desc: clone_opt_string(&noun.description),
            is_cutscene: noun.is_cutscene,
            conversations,
        };
        assert(noun_model(entry).conversations =~= get_or_empty(convs_before, noun_id));
        assert(noun_model(entry) == noun_item_model(
            *f,
            i as int,
            get_or_empty(convs_before, noun_id),
        ));
        let mut inner = match noun_map.remove(&room_id) {
            Some(m) => m,
            None => BTreeMap::new(),
        };
        let ghost inner_before = inner@.map_values(|e: NounEntry| noun_model(e));
        assert(inner_before =~= get_or_empty(nouns_before, room_id));
        inner.insert(noun.num, entry);
        assert(inner@.map_values(|e: NounEntry| noun_model(e)) =~= inner_before.insert(
            noun.num,
            noun_model(entry),
        ));
        noun_map.insert(room_id, inner);
        assert(noun_map_model(noun_map) =~= nouns_before.insert(
            room_id,
            get_or_empty(nouns_before, room_id).insert(
                noun.num,
                noun_item_model(*f, i as int, get_or_empty(convs_before, noun_id)),
            ),
        ));
        i = i + 1;
    }
    noun_map
}

/// The conditions of the first `n` condition items, by room and then by
/// number, with their descriptions; a later condition with the same
/// numbers replaces an earlier.
pub open spec fn condition_map_upto(f: BookFormat, n: int) -> Map<u16, Map<u8, Option<Seq<char>>>>
    decreases n,
{
    if n <= 0 {
        Map::empty()
    } else {
        let prev = condition_map_upto(f, n - 1);
        let c = f.conditions@[n - 1];
        let room = room_num_at(f, c.parent_room.0 as int);
        prev.insert(room, get_or_empty(prev, room).insert(c.num, opt_str(c.description)))
    }
}

/// The model of conditions by room.
pub open spec fn condition_map_model(m: BTreeMap<u16, BTreeMap<u8, ConditionEntry>>) -> Map<
    u16,
    Map<u8, Option<Seq<char>>>,
> {
    m@.map_values(
        |inner: BTreeMap<u8, ConditionEntry>| inner@.map_values(|e: ConditionEntry| opt_str(e.desc)),
    )
}

/// Collects the conditions of the format by room.
pub fn make_condition_map(f: &BookFormat, room_ids: &Vec<u16>) -> (m: BTreeMap<
    u16,
    BTreeMap<u8, ConditionEntry>,
>)
    requires
        refs_in_range(*f),
        room_ids@.len() == f.rooms@.len(),
        forall|i: int| 0 <= i < room_ids@.len() ==> #[trigger] room_ids@[i] == room_num_at(*f, i),
    ensures
        condition_map_model(m) == condition_map_upto(*f, f.conditions@.len() as int),
{
    let mut condition_map: BTreeMap<u16, BTreeMap<u8, ConditionEntry>> = BTreeMap::new();
    let mut i: usize = 0;
    assert(condition_map_model(condition_map) =~= condition_map_upto(*f, 0));
    while i < f.conditions.len()
        invariant
            i <= f.conditions@.len(),
            refs_in_range(*f),
            room_ids@.len() == f.rooms@.len(),
            forall|j: int| 0 <= j < room_ids@.len() ==> #[trigger] room_ids@[j] == room_num_at(*f, j),
            condition_map_model(condition_map) == condition_map_upto(*f, i as int),
        decreases f.conditions@.len() - i,
    {
        let cond = &f.conditions[i];
        assert(cond.parent_room.0 < f.rooms@.len());
        let room_id = room_ids[cond.parent_room.0];
        let ghost before = condition_map_model(condition_map);
        let entry = ConditionEntry { desc: clone_opt_string(&cond.description) };
        let mut inner = match condition_map.remove(&room_id) {
            Some(m) => m,
            None => BTreeMap::new(),
        };
        let ghost inner_before = inner@.map_values(|e: ConditionEntry| opt_str(e.desc));
        assert(inner_before =~= get_or_empty(before, room_id));
        inner.insert(cond.num, entry);
        assert(inner@.map_values(|e: ConditionEntry| opt_str(e.desc)) =~= inner_before.insert(
            cond.num,
            opt_str(cond.description),
        ));
        condition_map.insert(room_id, inner);
        assert(condition_map_model(condition_map) =~= before.insert(
            room_id,
            get_or_empty(before, room_id).insert(cond.num, opt_str(cond.description)),
        ));
        i = i + 1;
    }
    condition_map
}

/// After the first `n` room items: the nouns and the conditions that no
/// room has taken yet, and the rooms by number. Each room takes the nouns
/// and conditions of its number; a later room with the same number
/// replaces it and finds none left.
pub open spec fn rooms_upto(
    f: BookFormat,
    nouns: Map<u16, Map<u8, NounModel>>,
    conditions: Map<u16, Map<u8, Option<Seq<char>>>>,
    n: int,
) -> (Map<u16, Map<u8, NounModel>>, Map<u16, Map<u8, Option<Seq<char>>>>, Map<u16, RoomModel>)
    decreases n,
{
    if n <= 0 {
        (nouns, conditions, Map::empty())
    } else {
        let prev = rooms_upto(f, nouns, conditions, n - 1);
        let r = f.rooms@[n - 1];
        let room = RoomModel {
            name: opt_str(r.name),
            conditions: get_or_empty(prev.1, r.num),
            nouns: get_or_empty(prev.0, r.num),
        };
        (prev.0.remove(r.num), prev.1.remove(r.num), prev.2.insert(r.num, room))
    }
}

/// The model of rooms by number.
pub open spec fn rooms_model(m: BTreeMap<u16, RoomEntry>) -> Map<u16, RoomModel> {
    m@.map_values(|e: RoomEntry| room_model(e))
}

/// Makes the rooms of the format, each with the nouns and conditions of
/// its number.
pub fn make_rooms(
    f: &BookFormat,
    noun_map: BTreeMap<u16, BTreeMap<u8, NounEntry>>,
    condition_map: BTreeMap<u16, BTreeMap<u8, ConditionEntry>>,
) -> (m: BTreeMap<u16, RoomEntry>)
    ensures
        rooms_model(m) == rooms_upto(
            *f,
            noun_map_model(noun_map),
            condition_map_model(condition_map),
            f.rooms@.len() as int,
        ).2,
{
    let ghost nouns0 = noun_map_model(noun_map);
    let ghost conds0 = condition_map_model(condition_map);
    let mut noun_map = noun_map;
    let mut condition_map = condition_map;
    let mut rooms: BTreeMap<u16, RoomEntry> = BTreeMap::new();
    let mut i: usize = 0;
    assert(rooms_model(rooms) =~= rooms_upto(*f, nouns0, conds0, 0).2);
    while i < f.rooms.len()
        invariant
            i <= f.rooms@.len(),
            noun_map_model(noun_map) == rooms_upto(*f, nouns0, conds0, i as int).0,
            condition_map_model(condition_map) == rooms_upto(*f, nouns0, conds0, i as int).1,
            rooms_model(rooms) == rooms_upto(*f, nouns0, conds0, i as int).2,
        decreases f.rooms@.len() - i,
    {
        let room = &f.rooms[i];
        let ghost nouns_before = noun_map_model(noun_map);
        let ghost conds_before = condition_map_model(condition_map);
        let ghost rooms_before = rooms_model(rooms);
        let nouns = match noun_map.remove(&room.num) {
            Some(m) => m,
            None => BTreeMap::new(),
        };
        let conditions = match condition_map.remove(&room.num) {
            Some(m) => m,
            None => BTreeMap::new(),
        };
        assert(noun_map_model(noun_map) =~= nouns_before.remove(room.num));
        assert(condition_map_model(condition_map) =~= conds_before.remove(room.num));
        let entry = RoomEntry { name: clone_opt_string(&room.name), nouns, conditions };
        let ghost expected = RoomModel {
            name: opt_str(room.name),
            conditions: get_or_empty(conds_before, room.num),
            nouns: get_or_empty(nouns_before, room.num),
        };
        assert(room_model(entry).nouns =~= expected.nouns);
        assert(room_model(entry).conditions =~= expected.conditions);
        assert(room_model(entry) == expected);
        rooms.insert(room.num, entry);
        assert(rooms_model(rooms) =~= rooms_before.insert(room.num, expected));
        i = i + 1;
    }
    rooms
}

/// The verbs of the first `n` verb items, by number, with their names; a
/// later verb with the same number replaces an earlier.
pub open spec fn verbs_upto(f: BookFormat, n: int) -> Map<u8, Seq<char>>
    decreases n,
{
    if n <= 0 {
        Map::empty()
    } else {
        verbs_upto(f, n - 1).insert(f.verbs@[n - 1].num, f.verbs@[n - 1].name@)
    }
}

/// The model of verbs by number: their names.
pub open spec fn verbs_model(m: BTreeMap<u8, VerbEntry>) -> Map<u8, Seq<char>> {
    m@.map_values(|e: VerbEntry| e.name@)
}

/// Makes the verbs of the format.
pub fn make_verbs(f: &BookFormat) -> (m: BTreeMap<u8, VerbEntry>)
    ensures
        verbs_model(m) == verbs_upto(*f, f.verbs@.len() as int),
{
    let mut verbs: BTreeMap<u8, VerbEntry> = BTreeMap::new();
    let mut i: usize = 0;
    assert(verbs_model(verbs) =~= verbs_upto(*f, 0));
    while i < f.verbs.len()
        invariant
            i <= f.verbs@.len(),
            verbs_model(verbs) == verbs_upto(*f, i as int),
        decreases f.verbs@.len() - i,
    {
        let verb = &f.verbs[i];
        let ghost before = verbs_model(verbs);
        verbs.insert(verb.num, VerbEntry { name: verb.name.clone() });
        assert(verbs_model(verbs) =~= before.insert(verb.num, verb.name@));
        i = i + 1;
    }
    verbs
}

/// The roles of the first `n` role items, by raw identifier, with their
/// (name, short name); a later role with the same raw identifier replaces
/// an earlier.
pub open spec fn roles_upto(f: BookFormat, n: int) -> Map<Seq<char>, (Seq<char>, Seq<char>)>
    decreases n,
{
    if n <= 0 {
        Map::empty()
    } else {
        let r = f.roles@[n - 1];
        roles_upto(f, n - 1).insert(r.raw@, (r.name@, r.short_name@))
    }
}

/// The names of a role entry.
pub open spec fn role_names(e: RoleEntry) -> (Seq<char>, Seq<char>) {
    (e.name@, e.short_name@)
}

/// Makes the roles of the format, in order of their raw identifiers.
pub fn make_roles(f: &BookFormat) -> (roles: Vec<(String, RoleEntry)>)
    ensures
        keys_sorted(roles_model(roles@)),
        forall|k: Seq<char>|
            #[trigger] lookup(roles_model(roles@), k) == map_get(
                roles_upto(*f, f.roles@.len() as int),
                k,
            ),
{
    let mut roles: Vec<(String, RoleEntry)> = Vec::new();
    let mut i: usize = 0;
    proof {
        assert forall|k: Seq<char>| #[trigger]
            map_get(roles_upto(*f, 0), k) == match lookup(keyed(roles@), k) {
                Some(e) => Some(role_names(e)),
                None => None,
            } by {}
    }
    while i < f.roles.len()
        invariant
            i <= f.roles@.len(),
            keys_sorted(keyed(roles@)),
            forall|k: Seq<char>|
                #[trigger] map_get(roles_upto(*f, i as int), k) == match lookup(keyed(roles@), k) {
                    Some(e) => Some(role_names(e)),
                    None => None,
                },
        decreases f.roles@.len() - i,
    {
        let role = &f.roles[i];
        let entry = RoleEntry { name: role.name.clone(), short_name: role.short_name.clone() };
        let ghost before = keyed(roles@);
        set_sorted(&mut roles, role.raw.clone(), entry);
        i = i + 1;
        proof {
            assert forall|k: Seq<char>| #[trigger]
                map_get(roles_upto(*f, i as int), k) == match lookup(keyed(roles@), k) {
                    Some(e) => Some(role_names(e)),
                    None => None,
                } by {
                if k != role.raw@ {
                    assert(map_get(roles_upto(*f, i - 1), k) == match lookup(before, k) {
                        Some(e) => Some(role_names(e)),
                        None => None,
                    });
                }
            }
        }
    }
    proof {
        let g = |e: RoleEntry| role_names(e);
        lemma_lookup_map_values(keyed(roles@), g);
        assert(roles_model(roles@) =~= map_entry_values(keyed(roles@), g));
    }
    roles
}

/// The rooms of a format, with their conditions, nouns, conversations and
/// lines.
pub open spec fn format_rooms(f: BookFormat) -> Map<u16, RoomModel> {
    let lines = line_map_upto(f, f.lines@.len() as int);
    let convs = conv_map_upto(f, lines, f.conversations@.len() as int).1;
    let nouns = noun_map_upto(f, convs, f.nouns@.len() as int).1;
    let conditions = condition_map_upto(f, f.conditions@.len() as int);
    rooms_upto(f, nouns, conditions, f.rooms@.len() as int).2
}

/// Rebuilds a book from its flat format: each item is put under its
/// parent, found by its index; an item with the numbers of an earlier one
/// replaces it.
pub fn deserialize_book(formatted_book: BookFormat) -> (book: Book)
    requires
        refs_in_range(formatted_book),
    ensures
        book.wf(),
        book.project_name@ == formatted_book.project_name@,
        forall|k: Seq<char>|
            #[trigger] lookup(roles_model(book.roles@), k) == map_get(
                roles_upto(formatted_book, formatted_book.roles@.len() as int),
                k,
            ),
        verbs_model(book.verbs) == verbs_upto(formatted_book, formatted_book.verbs@.len() as int),
        rooms_model(book.rooms) == format_rooms(formatted_book),
{
    let f = &formatted_book;
    let mut role_ids: Vec<String> = Vec::new();
    let mut i: usize = 0;
    while i < f.roles.len()
        invariant
            i <= f.roles@.len(),
            role_ids@.len() == i,
            forall|j: int| 0 <= j < i ==> (#[trigger] role_ids@[j])@ == f.roles@[j].raw@,
        decreases f.roles@.len() - i,
    {
        role_ids.push(f.roles[i].raw.clone());
        i = i + 1;
    }
    let mut room_ids: Vec<u16> = Vec::new();
    let mut i: usize = 0;
    while i < f.rooms.len()
        invariant
            i <= f.rooms@.len(),
            room_ids@.len() == i,
            forall|j: int| 0 <= j < i ==> #[trigger] room_ids@[j] == room_num_at(*f, j),
        decreases f.rooms@.len() - i,
    {
        room_ids.push(f.rooms[i].num);
        i = i + 1;
    }
    let mut noun_ids: Vec<(u16, u8)> = Vec::new();
    let mut i: usize = 0;
    while i < f.nouns.len()
        invariant
            i <= f.nouns@.len(),
            refs_in_range(*f),
            room_ids@.len() == f.rooms@.len(),
            forall|j: int| 0 <= j < room_ids@.len() ==> #[trigger] room_ids@[j] == room_num_at(*f, j),
            noun_ids@.len() == i,
            forall|j: int| 0 <= j < i ==> #[trigger] noun_ids@[j] == noun_pair_at(*f, j),
        decreases f.nouns@.len() - i,
    {
        let noun = &f.nouns[i];
        assert(noun.parent_room.0 < f.rooms@.len());
        noun_ids.push((room_ids[noun.parent_room.0], noun.num));
        i = i + 1;
    }
    let mut conversation_ids: Vec<(u16, u8, u8, u8)> = Vec::new();
    let mut i: usize = 0;
    while i < f.conversations.len()
        invariant
            i <= f.conversations@.len(),
            refs_in_range(*f),
            noun_ids@.len() == f.nouns@.len(),
            forall|j: int| 0 <= j < noun_ids@.len() ==> #[trigger] noun_ids@[j] == noun_pair_at(*f, j),
            conversation_ids@.len() == i,
            forall|j: int| 0 <= j < i ==> #[trigger] conversation_ids@[j] == conv_quad_at(*f, j),
        decreases f.conversations@.len() - i,
    {
        let conv = &f.conversations[i];
        assert(conv.parent_noun.0 < f.nouns@.len());
        let noun_id = noun_ids[conv.parent_noun.0];
        let key = conv_key(f, conv, Ghost(i as int));
        conversation_ids.push((noun_id.0, noun_id.1, key.0, key.1));
        i = i + 1;
    }
    let line_map = make_line_map(f, &role_ids, &conversation_ids);
    let conv_map = make_conv_map(f, &noun_ids, line_map);
    let noun_map = make_noun_map(f, &room_ids, conv_map);
    let condition_map = make_condition_map(f, &room_ids);
    let rooms = make_rooms(f, noun_map, condition_map);
    let verbs = make_verbs(f);
    let roles = make_roles(f);
    Book { project_name: formatted_book.project_name.clone(), roles, verbs, rooms }
}

} // verus!
