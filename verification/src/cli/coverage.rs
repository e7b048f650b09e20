//! Which lines of a book a target's clips voice: the lines left without a
//! clip, and the clips of lines the book does not have.
use std::collections::BTreeMap;

use vstd::prelude::*;

use crate::book::ids::{
    ConversationId, ConversationKey, LineId, NounId, RawConditionId, RawNounId, RawRoomId,
    RawSequenceId, RawVerbId, RoomId,
};
use crate::book::navigation::line_lt;
use crate::book::Book;
use crate::file::{line_key_lt, line_keys_obey_order, line_keys_of, LineKey};
use crate::resources::AudioClip;

verus! {

broadcast use vstd::std_specs::btree::group_btree_axioms;

/// The identifier of the line `k`.
pub fn line_id_of(k: LineKey) -> (l: LineId)
    ensures
        l.conversation.quad() == (k.0, k.1, k.2, k.3),
        l.sequence.0 == k.4,
{
    let noun = NounId::from_room_raw(RoomId::from_raw(RawRoomId(k.0)), RawNounId(k.1));
    let conversation = ConversationId::from_noun_key(
        noun,
        ConversationKey::new(RawVerbId(k.2), RawConditionId(k.3)),
    );
    LineId::from_conv_seq(conversation, RawSequenceId(k.4))
}

/// The lines of the book that no clip of `clip_map` voices, in the order
/// of lines.
pub fn missing_lines(book: &Book, clip_map: &BTreeMap<LineKey, AudioClip>) -> (r: Vec<LineKey>)
    requires
        book.wf(),
    ensures
        forall|k: LineKey| #[trigger] r@.contains(k) <==> book.has_line(k) && !clip_map@.contains_key(k),
        forall|i: int, j: int| 0 <= i < j < r@.len() ==> line_key_lt(r@[i], r@[j]),
{
    proof {
        crate::file::lemma_line_keys_obey_order();
    }
    let lines = book.lines();
    let mut r: Vec<LineKey> = Vec::new();
    let mut i: usize = 0;
    while i < lines.len()
        invariant
            i <= lines@.len(),
            line_keys_obey_order(),
            forall|t: int|
                0 <= t < lines@.len() ==> (#[trigger] lines@[t]).wf() && lines@[t].conversation.book()
                    == book,
            forall|a: int, b: int| 0 <= a < b < lines@.len() ==> line_lt(lines@[a].key(), lines@[b].key()),
            forall|k: LineKey| #[trigger]
                book.has_line(k) ==> exists|t: int| 0 <= t < lines@.len() && lines@[t].key() == k,
            forall|k: LineKey| #[trigger]
                r@.contains(k) <==> (exists|t: int| 0 <= t < i && lines@[t].key() == k)
                    && !clip_map@.contains_key(k),
            forall|a: int| 0 <= a < r@.len() ==> exists|t: int| 0 <= t < i && lines@[t].key() == #[trigger] r@[a],
            forall|a: int, b: int| 0 <= a < b < r@.len() ==> line_key_lt(r@[a], r@[b]),
        decreases lines@.len() - i,
    {
        let key = lines[i].line_key();
        if !clip_map.contains_key(&key) {
            let ghost before = r@;
            r.push(key);
            proof {
                assert forall|a: int| 0 <= a < before.len() implies line_key_lt(r@[a], key) by {
                    let t = choose|t: int| 0 <= t < i && lines@[t].key() == before[a];
                    assert(line_lt(lines@[t].key(), lines@[i as int].key()));
                }
                assert forall|a: int| 0 <= a < r@.len() implies exists|t: int|
                    0 <= t < i + 1 && lines@[t].key() == #[trigger] r@[a] by {
                    if a < before.len() {
                        assert(r@[a] == before[a]);
                    } else {
                        assert(lines@[i as int].key() == r@[a]);
                    }
                }
                assert forall|k: LineKey| #[trigger] r@.contains(k) <==> (exists|t: int|
                    0 <= t < i + 1 && lines@[t].key() == k) && !clip_map@.contains_key(k) by {
                    if r@.contains(k) && k != key {
                        let a = choose|a: int| 0 <= a < r@.len() && r@[a] == k;
                        assert(before[a] == k);
                        assert(before.contains(k));
                    }
                    if k == key {
                        assert(r@[before.len() as int] == k);
                    }
                    if (exists|t: int| 0 <= t < i + 1 && lines@[t].key() == k) && !clip_map@.contains_key(k)
                        && k != key {
                        let t = choose|t: int| 0 <= t < i + 1 && lines@[t].key() == k;
                        assert(t < i);
                        assert(before.contains(k));
                        let a = choose|a: int| 0 <= a < before.len() && before[a] == k;
                        assert(r@[a] == k);
                    }
                }
            }
        } else {
            proof {
                assert forall|k: LineKey| #[trigger] r@.contains(k) <==> (exists|t: int|
                    0 <= t < i + 1 && lines@[t].key() == k) && !clip_map@.contains_key(k) by {
                    if (exists|t: int| 0 <= t < i + 1 && lines@[t].key() == k) && !clip_map@.contains_key(k) {
                        let t = choose|t: int| 0 <= t < i + 1 && lines@[t].key() == k;
                        assert(t < i);
                    }
                }
                assert forall|a: int| 0 <= a < r@.len() implies exists|t: int|
                    0 <= t < i + 1 && lines@[t].key() == #[trigger] r@[a] by {
                    let t = choose|t: int| 0 <= t < i && lines@[t].key() == r@[a];
                }
            }
        }
        i = i + 1;
    }
    proof {
        assert forall|k: LineKey| #[trigger] r@.contains(k) <==> book.has_line(k) && !clip_map@.contains_key(k) by {
            if r@.contains(k) {
                let t = choose|t: int| 0 <= t < lines@.len() && lines@[t].key() == k;
                assert(lines@[t].wf());
            }
        }
    }
    r
}

/// The lines that clips of `clip_map` voice and the book does not have, in
/// the order of lines.
pub fn unused_clips(book: &Book, clip_map: &BTreeMap<LineKey, AudioClip>) -> (r: Vec<LineKey>)
    requires
        book.wf(),
    ensures
        forall|k: LineKey| #[trigger] r@.contains(k) <==> clip_map@.contains_key(k) && !book.has_line(k),
        forall|i: int, j: int| 0 <= i < j < r@.len() ==> line_key_lt(r@[i], r@[j]),
{
    let keys = line_keys_of(clip_map);
    let mut r: Vec<LineKey> = Vec::new();
    let mut i: usize = 0;
    while i < keys.len()
        invariant
            i <= keys@.len(),
            forall|k: LineKey| #[trigger] keys@.contains(k) <==> clip_map@.contains_key(k),
            forall|a: int, b: int| 0 <= a < b < keys@.len() ==> line_key_lt(keys@[a], keys@[b]),
            forall|k: LineKey| #[trigger]
                r@.contains(k) <==> (exists|t: int| 0 <= t < i && keys@[t] == k) && !book.has_line(k),
            forall|a: int| 0 <= a < r@.len() ==> exists|t: int| 0 <= t < i && keys@[t] == #[trigger] r@[a],
            forall|a: int, b: int| 0 <= a < b < r@.len() ==> line_key_lt(r@[a], r@[b]),
        decreases keys@.len() - i,
    {
        let key = keys[i];
        let found = book.get_line(line_id_of(key));
        if found.is_none() {
            let ghost before = r@;
            r.push(key);
            proof {
                assert forall|a: int| 0 <= a < before.len() implies line_key_lt(r@[a], key) by {
                    let t = choose|t: int| 0 <= t < i && keys@[t] == before[a];
                }
                assert forall|a: int| 0 <= a < r@.len() implies exists|t: int|
                    0 <= t < i + 1 && keys@[t] == #[trigger] r@[a] by {
                    if a < before.len() {
                        assert(r@[a] == before[a]);
                    } else {
                        assert(keys@[i as int] == r@[a]);
                    }
                }
                assert forall|k: LineKey| #[trigger] r@.contains(k) <==> (exists|t: int|
                    0 <= t < i + 1 && keys@[t] == k) && !book.has_line(k) by {
                    if r@.contains(k) && k != key {
                        let a = choose|a: int| 0 <= a < r@.len() && r@[a] == k;
                        assert(before[a] == k);
                        assert(before.contains(k));
                    }
                    if k == key {
                        assert(r@[before.len() as int] == k);
                    }
                    if (exists|t: int| 0 <= t < i + 1 && keys@[t] == k) && !book.has_line(k) && k != key {
                        let t = choose|t: int| 0 <= t < i + 1 && keys@[t] == k;
                        assert(t < i);
                        assert(before.contains(k));
                        let a = choose|a: int| 0 <= a < before.len() && before[a] == k;
                        assert(r@[a] == k);
                    }
                }
            }
        } else {
            proof {
                assert forall|k: LineKey| #[trigger] r@.contains(k) <==> (exists|t: int|
                    0 <= t < i + 1 && keys@[t] == k) && !book.has_line(k) by {
                    if (exists|t: int| 0 <= t < i + 1 && keys@[t] == k) && !book.has_line(k) {
                        let t = choose|t: int| 0 <= t < i + 1 && keys@[t] == k;
                        if t == i {
                            let line = found.unwrap();
                            assert(line.key() == key);
                        }
                    }
                }
                assert forall|a: int| 0 <= a < r@.len() implies exists|t: int|
                    0 <= t < i + 1 && keys@[t] == #[trigger] r@[a] by {
                    let t = choose|t: int| 0 <= t < i && keys@[t] == r@[a];
                }
            }
        }
        i = i + 1;
    }
    proof {
        assert forall|k: LineKey| #[trigger] r@.contains(k) <==> clip_map@.contains_key(k) && !book.has_line(k) by {
            if clip_map@.contains_key(k) {
                assert(keys@.contains(k));
                let t = choose|t: int| 0 <= t < keys@.len() && keys@[t] == k;
                assert(exists|t: int| 0 <= t < i && keys@[t] == k);
            }
            if r@.contains(k) {
                let t = choose|t: int| 0 <= t < i && keys@[t] == k;
                assert(keys@.contains(k));
            }
        }
    }
    r
}

} // verus!
