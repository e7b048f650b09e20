use std::collections::BTreeMap;

use sciproj::cli::coverage::{missing_lines, unused_clips};

use sciproj::book::file_format::{
    build_line_text, build_line_text_segment, deserialize_book, deserialize_rich_text,
    make_roles, BookFormat, ConditionIndex, ConditionItem, ConversationIndex, ConversationItem,
    LineItem, LineSegment, LineText, NounIndex, NounItem, RichSegment, RichStyle, RoleIndex,
    RoleItem, RoomIndex, RoomItem, VerbIndex, VerbItem,
};
use sciproj::book::ids::{
    ConditionId, ConversationId, ConversationKey, LineId, NounId, RawConditionId, RawNounId,
    RawRoleId, RawRoomId, RawSequenceId, RawTalkerId, RawVerbId, RoleId, RoomId, VerbId,
};
use sciproj::book::rich_text::{RichText, TextItem, TextStyle};
use sciproj::book::{ConversationEntry, LineEntry, SkippedSequence};

fn plain_line(num: u8, text: &str, conv: usize) -> LineItem {
    LineItem {
        id: format!("line-{num}"),
        num,
        talker_num: 3,
        role: RoleIndex(0),
        text: LineText::Simple(text.to_string()),
        parent_conversation: ConversationIndex(conv),
    }
}

fn sample_format() -> BookFormat {
    BookFormat {
        project_name: "Demo".to_string(),
        roles: vec![
            RoleItem {
                id: "role-NARRATOR".to_string(),
                raw: "NARRATOR".to_string(),
                name: "The Narrator".to_string(),
                short_name: "Narr".to_string(),
            },
            RoleItem {
                id: "role-EGO".to_string(),
                raw: "EGO".to_string(),
                name: "Hero".to_string(),
                short_name: "Ego".to_string(),
            },
        ],
        verbs: vec![VerbItem { id: "verb-2".to_string(), num: 2, name: "Look".to_string() }],
        rooms: vec![RoomItem { id: "room-10".to_string(), num: 10, name: Some("Hall".to_string()) }],
        conditions: vec![ConditionItem {
            id: "condition-10-1".to_string(),
            num: 1,
            description: Some("Night".to_string()),
            parent_room: RoomIndex(0),
        }],
        nouns: vec![NounItem {
            id: "noun-10-5".to_string(),
            num: 5,
            description: None,
            is_cutscene: false,
            parent_room: RoomIndex(0),
        }],
        conversations: vec![
            ConversationItem {
                id: "c1".to_string(),
                verb: Some(VerbIndex(0)),
                condition: None,
                parent_noun: NounIndex(0),
            },
            ConversationItem {
                id: "c2".to_string(),
                verb: None,
                condition: Some(ConditionIndex(0)),
                parent_noun: NounIndex(0),
            },
        ],
        lines: vec![
            plain_line(1, "Hello.", 0),
            plain_line(2, "Bye.", 0),
            LineItem {
                id: "l3".to_string(),
                num: 1,
                talker_num: 7,
                role: RoleIndex(1),
                text: LineText::Rich(vec![
                    LineSegment::Plain("It is ".to_string()),
                    LineSegment::Rich(RichSegment {
                        text: "dark".to_string(),
                        style: RichStyle { bold: true, italic: false },
                    }),
                ]),
                parent_conversation: ConversationIndex(1),
            },
        ],
    }
}

#[test]
fn deserialize_book_builds_the_tree() {
    let book = deserialize_book(sample_format());
    assert_eq!(book.project_name(), "Demo");
    let roles: Vec<&str> = book.roles.iter().map(|(id, _)| id.as_str()).collect();
    assert_eq!(roles, vec!["EGO", "NARRATOR"]);
    let ego = book.get_role(&RoleId::from_raw(RawRoleId::new("EGO".to_string()))).unwrap();
    assert_eq!(ego.name(), "Hero");
    assert_eq!(ego.short_name(), "Ego");
    assert!(book.get_role(&RoleId::from_raw(RawRoleId::new("X".to_string()))).is_none());
    assert_eq!(book.get_verb(VerbId::from_raw(RawVerbId(2))).unwrap().name(), "Look");
    let room = RoomId::from_raw(RawRoomId(10));
    assert_eq!(book.get_room(room).unwrap().name(), Some("Hall"));
    let cond = book.get_condition(ConditionId::from_room_raw(room, RawConditionId(1))).unwrap();
    assert_eq!(cond.desc(), Some("Night"));
    assert_eq!(cond.room().name(), Some("Hall"));
    let noun = NounId::from_room_raw(room, RawNounId(5));
    assert_eq!(book.get_noun(noun).unwrap().conversations().len(), 2);
    let look = ConversationId::from_noun_key(noun, ConversationKey::new(RawVerbId(2), RawConditionId(0)));
    assert_eq!(book.get_conversation(look).unwrap().lines().len(), 2);
    let night = ConversationId::from_noun_key(noun, ConversationKey::new(RawVerbId(0), RawConditionId(1)));
    let line = book.get_line(LineId::from_conv_seq(night, RawSequenceId(1))).unwrap();
    assert_eq!(line.talker_num(), 7);
    assert_eq!(line.entry.role.0, "EGO");
    assert_eq!(line.text().items.len(), 2);
    assert_eq!(line.text().items[1].text, "dark");
    assert!(line.text().items[1].style.bold);
    assert_eq!(line.id(), LineId::from_conv_seq(night, RawSequenceId(1)));
    let first = book.get_line(LineId::from_conv_seq(look, RawSequenceId(1))).unwrap();
    assert_eq!(first.text().items[0].text, "Hello.");
    assert_eq!(first.entry.role.0, "NARRATOR");
}

#[test]
fn deserialize_book_later_duplicate_replaces() {
    let mut f = sample_format();
    f.verbs.push(VerbItem { id: "verb-2b".to_string(), num: 2, name: "Examine".to_string() });
    f.lines.push(plain_line(1, "Hello again.", 0));
    let book = deserialize_book(f);
    assert_eq!(book.verbs.len(), 1);
    assert_eq!(book.get_verb(VerbId::from_raw(RawVerbId(2))).unwrap().name(), "Examine");
    let noun = NounId::from_room_raw(RoomId::from_raw(RawRoomId(10)), RawNounId(5));
    let look = ConversationId::from_noun_key(noun, ConversationKey::new(RawVerbId(2), RawConditionId(0)));
    let line = book.get_line(LineId::from_conv_seq(look, RawSequenceId(1))).unwrap();
    assert_eq!(line.text().items[0].text, "Hello again.");
}

#[test]
fn deserialize_book_room_without_items_is_empty() {
    let mut f = sample_format();
    f.rooms.push(RoomItem { id: "r2".to_string(), num: 20, name: None });
    let book = deserialize_book(f);
    let room = book.get_room(RoomId::from_raw(RawRoomId(20))).unwrap();
    assert_eq!(room.name(), None);
    assert_eq!(book.rooms[&20].nouns.len(), 0);
    assert_eq!(book.rooms[&20].conditions.len(), 0);
}

#[test]
fn make_roles_sorts_and_replaces() {
    let mut f = sample_format();
    f.roles.push(RoleItem {
        id: "role-EGO".to_string(),
        raw: "EGO".to_string(),
        name: "Other".to_string(),
        short_name: "O".to_string(),
    });
    let roles = make_roles(&f);
    assert_eq!(roles.len(), 2);
    assert_eq!(roles[0].0, "EGO");
    assert_eq!(roles[0].1.name, "Other");
    assert_eq!(roles[1].0, "NARRATOR");
}

#[test]
fn rich_text_round_trip_through_line_text() {
    let mut text = RichText::new();
    text.add_plain_text("a");
    text.add_text("b", TextStyle::of_plain().set_italic(true));
    let line_text = build_line_text(&text);
    match &line_text {
        LineText::Rich(segs) => assert_eq!(segs.len(), 2),
        LineText::Simple(_) => panic!("two runs make rich text"),
    }
    let back = deserialize_rich_text(&line_text);
    assert_eq!(back.items.len(), 2);
    assert_eq!(back.items[0].text, "a");
    assert!(back.items[1].style.italic);
    assert!(!back.items[1].style.bold);
}

#[test]
fn build_line_text_simple_cases() {
    match build_line_text(&RichText::new()) {
        LineText::Simple(s) => assert_eq!(s, ""),
        LineText::Rich(_) => panic!("empty text is simple"),
    }
    let mut one = RichText::new();
    one.add_plain_text("only");
    match build_line_text(&one) {
        LineText::Simple(s) => assert_eq!(s, "only"),
        LineText::Rich(_) => panic!("one plain run is simple"),
    }
    let mut bold = RichText::new();
    bold.add_text("loud", TextStyle::of_plain().set_bold(true));
    match build_line_text(&bold) {
        LineText::Rich(segs) => assert_eq!(segs.len(), 1),
        LineText::Simple(_) => panic!("a bold run is rich"),
    }
}

#[test]
fn build_line_text_segment_styles() {
    let plain = TextItem { text: "x".to_string(), style: TextStyle::of_plain() };
    assert!(matches!(build_line_text_segment(&plain), LineSegment::Plain(t) if t == "x"));
    let styled = TextItem { text: "y".to_string(), style: TextStyle::of_plain().set_bold(true) };
    match build_line_text_segment(&styled) {
        LineSegment::Rich(r) => {
            assert_eq!(r.text, "y");
            assert!(r.style.bold && !r.style.italic);
        }
        LineSegment::Plain(_) => panic!("bold is not plain"),
    }
}

fn conversation(nums: &[u8]) -> ConversationEntry {
    let mut lines = BTreeMap::new();
    for &n in nums {
        lines.insert(
            n,
            LineEntry {
                text: RichText::new(),
                talker: RawTalkerId::new(0),
                role: RawRoleId::new("A".to_string()),
            },
        );
    }
    ConversationEntry { lines }
}

#[test]
fn validate_complete_accepts_consecutive_lines() {
    assert!(conversation(&[1, 2, 3]).validate_complete().is_ok());
    assert!(conversation(&[]).validate_complete().is_ok());
}

#[test]
fn validate_complete_reports_each_gap() {
    let errs = conversation(&[2, 3, 6]).validate_complete().unwrap_err();
    assert_eq!(
        errs,
        vec![
            SkippedSequence { expected: 1, next: 2 },
            SkippedSequence { expected: 4, next: 6 },
        ]
    );
}

#[test]
fn role_id_display() {
    let id = RoleId::from_raw(RawRoleId::new("EGO".to_string()));
    assert_eq!(id.as_str(), "EGO");
    assert_eq!(id.to_display_string(), "role-EGO");
    assert_eq!(id.raw_id().0, "EGO");
}

use sciproj::book::file_format::flatten::format_book;

#[test]
fn format_book_lists_every_item_under_its_parent() {
    let book = deserialize_book(sample_format());
    let f = format_book(&book);
    assert_eq!(f.project_name, "Demo");
    assert_eq!(f.roles.len(), 2);
    assert_eq!(f.roles[0].raw, "EGO");
    assert_eq!(f.roles[0].id, "role-EGO");
    assert_eq!(f.verbs.len(), 1);
    assert_eq!(f.verbs[0].id, "verb-2");
    assert_eq!(f.verbs[0].name, "Look");
    assert_eq!(f.rooms.len(), 1);
    assert_eq!(f.rooms[0].num, 10);
    assert_eq!(f.conditions.len(), 1);
    assert_eq!(f.conditions[0].id, "condition-10-1");
    assert_eq!(f.conditions[0].parent_room.0, 0);
    assert_eq!(f.nouns.len(), 1);
    assert_eq!(f.nouns[0].num, 5);
    assert_eq!(f.conversations.len(), 2);
    // Conversations come in key order: (verb 0, condition 1) before (verb 2, condition 0).
    assert!(f.conversations[0].verb.is_none());
    assert_eq!(f.conversations[0].condition.map(|c| c.0), Some(0));
    assert_eq!(f.conversations[1].verb.map(|v| v.0), Some(0));
    assert!(f.conversations[1].condition.is_none());
    assert_eq!(f.lines.len(), 3);
    let dark = &f.lines[0];
    assert_eq!(dark.parent_conversation.0, 0);
    assert_eq!(f.roles[dark.role.0].raw, "EGO");
    assert_eq!(dark.talker_num, 7);
    match &dark.text {
        LineText::Rich(segs) => assert_eq!(segs.len(), 2),
        LineText::Simple(_) => panic!("styled text stays rich"),
    }
    assert_eq!(f.lines[1].parent_conversation.0, 1);
    assert_eq!(f.lines[2].num, 2);
}

#[test]
fn reading_a_formatted_book_keeps_line_roles() {
    // Lines name their role by index; reading the format back gives each
    // line the role's own identifier, which the book's roles are keyed by.
    let book = deserialize_book(sample_format());
    let again = deserialize_book(format_book(&book));
    assert_eq!(again.roles.len(), book.roles.len());
    assert_eq!(again.verbs.len(), book.verbs.len());
    let noun = NounId::from_room_raw(RoomId::from_raw(RawRoomId(10)), RawNounId(5));
    let look = ConversationId::from_noun_key(noun, ConversationKey::new(RawVerbId(2), RawConditionId(0)));
    let line = again.get_line(LineId::from_conv_seq(look, RawSequenceId(2))).unwrap();
    assert_eq!(line.text().items[0].text, "Bye.");
    assert_eq!(line.entry.role.0, "NARRATOR");
    assert_eq!(line.role().name(), "The Narrator");
    let before = book.get_line(LineId::from_conv_seq(look, RawSequenceId(2))).unwrap();
    assert_eq!(before.entry.role.0, "NARRATOR");
    assert_eq!(before.role().name(), "The Narrator");
}

#[test]
fn navigation_lists_entities_in_id_order() {
    let book = deserialize_book(sample_format());
    let rooms = book.rooms();
    assert_eq!(rooms.len(), 1);
    assert_eq!(rooms[0].id(), RoomId::from_raw(RawRoomId(10)));
    let roles: Vec<String> = book.roles().iter().map(|r| r.name().to_string()).collect();
    assert_eq!(roles, vec!["Hero".to_string(), "The Narrator".to_string()]);
    let verbs = book.verbs();
    assert_eq!(verbs.len(), 1);
    assert_eq!(verbs[0].id(), VerbId::from_raw(RawVerbId(2)));
    let conditions = book.conditions();
    assert_eq!(conditions.len(), 1);
    assert_eq!(conditions[0].desc(), Some("Night"));
    let nouns = book.nouns();
    assert_eq!(nouns.len(), 1);
    assert_eq!(nouns[0].room().id(), RoomId::from_raw(RawRoomId(10)));
    assert!(!nouns[0].is_cutscene());
    let convs = book.conversations();
    assert_eq!(convs.len(), 2);
    // (verb 0, condition 1) comes before (verb 2, condition 0).
    assert!(convs[0].verb().is_none());
    assert_eq!(convs[0].condition().unwrap().desc(), Some("Night"));
    assert_eq!(convs[1].verb().unwrap().name(), "Look");
    assert!(convs[1].condition().is_none());
    assert_eq!(convs[1].noun().id(), NounId::from_room_raw(RoomId::from_raw(RawRoomId(10)), RawNounId(5)));
    let lines = book.lines();
    let texts: Vec<String> = lines.iter().map(|l| l.text().items[0].text.clone()).collect();
    assert_eq!(texts, vec!["It is ".to_string(), "Hello.".to_string(), "Bye.".to_string()]);
    assert_eq!(lines[0].role().short_name(), "Ego");
    assert_eq!(lines[2].conversation().id(), convs[1].id());
    assert_eq!(convs[1].lines().len(), 2);
    assert!(convs[1].validate_complete().is_ok());
}

fn clip(path: &str) -> sciproj::resources::AudioClip {
    sciproj::resources::AudioClip { start_us: None, end_us: None, path: path.to_string() }
}

#[test]
fn coverage_lists_missing_lines_and_unused_clips_in_order() {
    let book = deserialize_book(sample_format());
    let mut clips = BTreeMap::new();
    clips.insert((10, 5, 2, 0, 1), clip("a.wav"));
    clips.insert((3, 1, 1, 1, 1), clip("b.wav"));
    clips.insert((1, 1, 1, 1, 1), clip("c.wav"));
    assert_eq!(missing_lines(&book, &clips), vec![(10, 5, 0, 1, 1), (10, 5, 2, 0, 2)]);
    assert_eq!(unused_clips(&book, &clips), vec![(1, 1, 1, 1, 1), (3, 1, 1, 1, 1)]);
    clips.insert((10, 5, 0, 1, 1), clip("d.wav"));
    clips.insert((10, 5, 2, 0, 2), clip("e.wav"));
    assert!(missing_lines(&book, &clips).is_empty());
}
