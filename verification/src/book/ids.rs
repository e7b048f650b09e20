//! Identifiers of the entities of a book.
//!
//! Raw ids are the numbers (or, for roles, strings) of the message file;
//! public ids combine them into unique paths through the book: a room, a
//! noun or condition of a room, a conversation of a noun (by verb and
//! condition), and a line of a conversation (by sequence number).
use vstd::prelude::*;

verus! {

/// The number of a talker in a message.
#[derive(Debug, Clone, Copy, PartialEq, Eq, PartialOrd, Ord, Hash, Structural)]
pub struct RawTalkerId(pub u8);

impl RawTalkerId {
    /// The talker numbered `value`.
    pub fn new(value: u8) -> (t: Self)
        ensures
            t.0 == value,
    {
        RawTalkerId(value)
    }

    /// The talker's number.
    pub fn as_u8(self) -> (v: u8)
        ensures
            v == self.0,
    {
        self.0
    }
}

/// The identifier of a role, as written in the book's files.
#[derive(Debug, Clone, PartialEq, Eq, PartialOrd, Ord, Hash)]
pub struct RawRoleId(pub String);

impl RawRoleId {
    /// The role identified by `id`.
    pub fn new(id: String) -> (r: Self)
        ensures
            r.0@ == id@,
    {
        Self(id)
    }
}

/// The number of a verb.
#[derive(Debug, Clone, Copy, PartialEq, Eq, PartialOrd, Ord, Hash, Structural)]
pub struct RawVerbId(pub u8);

/// The number of a room.
#[derive(Debug, Clone, Copy, PartialEq, Eq, PartialOrd, Ord, Hash, Structural)]
pub struct RawRoomId(pub u16);

/// The number of a noun within a room.
#[derive(Debug, Clone, Copy, PartialEq, Eq, PartialOrd, Ord, Hash, Structural)]
pub struct RawNounId(pub u8);

/// The number of a condition within a room.
#[derive(Debug, Clone, Copy, PartialEq, Eq, PartialOrd, Ord, Hash, Structural)]
pub struct RawConditionId(pub u8);

/// The sequence number of a line within a conversation.
#[derive(Debug, Clone, Copy, PartialEq, Eq, PartialOrd, Ord, Hash, Structural)]
pub struct RawSequenceId(pub u8);

/// The key of a conversation within a noun: its verb and its condition (0
/// for none of either).
#[derive(Debug, Clone, Copy, PartialEq, Eq, PartialOrd, Ord, Hash, Structural)]
pub struct ConversationKey {
    pub verb: RawVerbId,
    pub condition: RawConditionId,
}

impl ConversationKey {
    /// The key of the conversation with `verb` under `condition`.
    pub fn new(verb: RawVerbId, condition: RawConditionId) -> (k: Self)
        ensures
            k.verb == verb,
            k.condition == condition,
    {
        ConversationKey { verb, condition }
    }

    /// The key as a pair of numbers, ordered as the key is.
    pub open spec fn pair(self) -> (u8, u8) {
        (self.verb.0, self.condition.0)
    }
}

/// The identifier of a room.
#[derive(Debug, Clone, Copy, PartialEq, Eq, PartialOrd, Ord, Hash, Structural)]
pub struct RoomId(pub RawRoomId);

impl RoomId {
    /// The room of `raw`.
    pub fn from_raw(raw: RawRoomId) -> (r: Self)
        ensures
            r.0 == raw,
    {
        RoomId(raw)
    }

    /// The room's number.
    pub fn room_num(&self) -> (n: u16)
        ensures
            n == self.0.0,
    {
        self.0.0
    }
}

/// The identifier of a noun: its room and its number there.
#[derive(Debug, Clone, Copy, PartialEq, Eq, PartialOrd, Ord, Hash, Structural)]
pub struct NounId {
    pub room: RoomId,
    pub noun: RawNounId,
}

impl NounId {
    /// The noun `raw` of `room`.
    pub fn from_room_raw(room: RoomId, raw: RawNounId) -> (n: Self)
        ensures
            n.room == room,
            n.noun == raw,
    {
        NounId { room, noun: raw }
    }

    /// The noun as a pair of numbers: room, noun.
    pub open spec fn pair(self) -> (u16, u8) {
        (self.room.0.0, self.noun.0)
    }
}

/// The identifier of a condition: its room and its number there.
#[derive(Debug, Clone, Copy, PartialEq, Eq, PartialOrd, Ord, Hash, Structural)]
pub struct ConditionId {
    pub room: RoomId,
    pub condition: RawConditionId,
}

impl ConditionId {
    /// The condition `raw` of `room`.
    pub fn from_room_raw(room: RoomId, raw: RawConditionId) -> (c: Self)
        ensures
            c.room == room,
            c.condition == raw,
    {
        ConditionId { room, condition: raw }
    }
}

/// The identifier of a conversation: its noun and its key there.
#[derive(Debug, Clone, Copy, PartialEq, Eq, PartialOrd, Ord, Hash, Structural)]
pub struct ConversationId {
    pub noun: NounId,
    pub key: ConversationKey,
}

impl ConversationId {
    /// The conversation `key` of `noun`.
    pub fn from_noun_key(noun: NounId, key: ConversationKey) -> (c: Self)
        ensures
            c.noun == noun,
            c.key == key,
    {
        ConversationId { noun, key }
    }

    /// The conversation as numbers: room, noun, verb, condition.
    pub open spec fn quad(self) -> (u16, u8, u8, u8) {
        (self.noun.room.0.0, self.noun.noun.0, self.key.verb.0, self.key.condition.0)
    }
}

/// The identifier of a line: its conversation and its sequence number there.
#[derive(Debug, Clone, Copy, PartialEq, Eq, PartialOrd, Ord, Hash, Structural)]
pub struct LineId {
    pub conversation: ConversationId,
    pub sequence: RawSequenceId,
}

impl LineId {
    /// The line `seq` of `conversation`.
    pub fn from_conv_seq(conversation: ConversationId, seq: RawSequenceId) -> (l: Self)
        ensures
            l.conversation == conversation,
            l.sequence == seq,
    {
        LineId { conversation, sequence: seq }
    }
}

/// The identifier of a verb.
#[derive(Debug, Clone, Copy, PartialEq, Eq, PartialOrd, Ord, Hash, Structural)]
pub struct VerbId(RawVerbId);

impl View for VerbId {
    /// The verb's number.
    type V = u8;

    closed spec fn view(&self) -> u8 {
        self.0.0
    }
}

impl VerbId {
    /// The verb of `verb`.
    pub fn from_raw(verb: RawVerbId) -> (v: Self)
        ensures
            v@ == verb.0,
    {
        VerbId(verb)
    }

    /// The verb's number.
    pub fn verb_num(&self) -> (n: u8)
        ensures
            n == self@,
    {
        self.0.0
    }

    /// The verb's raw id.
    pub fn raw_id(&self) -> (r: RawVerbId)
        ensures
            r.0 == self@,
    {
        self.0
    }
}

/// The identifier of a role.
#[derive(Debug, Clone, PartialEq, Eq, PartialOrd, Ord, Hash)]
pub struct RoleId(RawRoleId);

impl View for RoleId {
    /// The role's identifier's characters.
    type V = Seq<char>;

    closed spec fn view(&self) -> Seq<char> {
        self.0.0@
    }
}

impl RoleId {
    /// The raw identifier the role is made of.
    pub closed spec fn raw_spec(&self) -> RawRoleId {
        self.0
    }

    /// The role of `raw_id`.
    pub fn from_raw(raw_id: RawRoleId) -> (r: RoleId)
        ensures
            r@ == raw_id.0@,
            r.raw_spec() == raw_id,
    {
        RoleId(raw_id)
    }

    /// The role's identifier.
    pub fn as_str(&self) -> (s: &str)
        ensures
            s@ == self@,
    {
        self.0.0.as_str()
    }

    /// The role's raw identifier.
    pub fn raw_id(&self) -> (r: &RawRoleId)
        ensures
            r.0@ == self@,
            *r == self.raw_spec(),
    {
        &self.0
    }

    /// The role as it is displayed: `role-` followed by its identifier.
    pub fn to_display_string(&self) -> (s: String)
        ensures
            s@ == "role-"@ + self@,
    {
        let mut s = String::from_str("role-");
        s.append(self.0.0.as_str());
        proof {
            reveal_strlit("role-");
        }
        s
    }
}

/// A role gives back the raw identifier it is made of, and two roles are
/// the same exactly when their raw identifiers are.
pub proof fn lemma_role_raw_ids(a: RoleId, b: RoleId)
    ensures
        a@ == a.raw_spec().0@,
        (a == b) <==> (a.raw_spec() == b.raw_spec()),
{
}

} // verus!
