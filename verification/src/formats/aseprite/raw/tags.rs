//! The tags chunk: named frame ranges with an animation direction.
use vstd::prelude::*;

use crate::bytes_le::{lemma_u16_at, put_u16_le, put_u8, put_zeros, u16_at, u16_le, zeros};
use crate::formats::aseprite::raw::{
    avail, encode_utf8_len, flat, lemma_flat_push, lemma_name_roundtrip, lemma_prepend_push,
    name_bytes, prepend, put_name, read_lossy_name, read_u16, read_u8, skip_bytes, ReadError,
};
use crate::strings::lossy_text;

verus! {

/// The chunk type of a tags chunk.
pub const TAGS_CHUNK_TYPE: u16 = 0x2018;

/// The direction in which a tag's frames play.
#[derive(Clone, Copy, Debug, PartialEq, Eq, Structural)]
pub enum AnimationDirection {
    Forward,
    Reverse,
    PingPong,
    PingPongReverse,
}

/// The number that stands for a direction in a file.
pub open spec fn direction_code(d: AnimationDirection) -> u8 {
    match d {
        AnimationDirection::Forward => 0,
        AnimationDirection::Reverse => 1,
        AnimationDirection::PingPong => 2,
        AnimationDirection::PingPongReverse => 3,
    }
}

/// The direction that the number `code` stands for, if any.
pub open spec fn direction_of_code(code: u8) -> Option<AnimationDirection> {
    if code == 0 {
        Some(AnimationDirection::Forward)
    } else if code == 1 {
        Some(AnimationDirection::Reverse)
    } else if code == 2 {
        Some(AnimationDirection::PingPong)
    } else if code == 3 {
        Some(AnimationDirection::PingPongReverse)
    } else {
        None
    }
}

impl AnimationDirection {
    /// The number that stands for this direction in a file.
    pub fn to_u8(self) -> (c: u8)
        ensures
            c == direction_code(self),
    {
        match self {
            AnimationDirection::Forward => 0,
            AnimationDirection::Reverse => 1,
            AnimationDirection::PingPong => 2,
            AnimationDirection::PingPongReverse => 3,
        }
    }

    /// The direction that `code` stands for, if any.
    pub fn from_u8(code: u8) -> (d: Option<Self>)
        ensures
            d == direction_of_code(code),
    {
        if code == 0 {
            Some(AnimationDirection::Forward)
        } else if code == 1 {
            Some(AnimationDirection::Reverse)
        } else if code == 2 {
            Some(AnimationDirection::PingPong)
        } else if code == 3 {
            Some(AnimationDirection::PingPongReverse)
        } else {
            None
        }
    }
}

/// A tag: frames `from_frame` to `to_frame`, played in `direction`,
/// `repeat` times (0 for ever).
#[derive(Clone, Debug)]
pub struct Tag {
    pub from_frame: u16,
    pub to_frame: u16,
    pub direction: AnimationDirection,
    pub repeat: u16,
    pub name: String,
}

/// A tags chunk.
#[derive(Clone, Debug)]
pub struct TagsChunk {
    pub tags: Vec<Tag>,
}

/// The model of a [`Tag`]: the name by its characters.
pub struct TagModel {
    pub from_frame: u16,
    pub to_frame: u16,
    pub direction: AnimationDirection,
    pub repeat: u16,
    pub name: Seq<char>,
}

impl View for Tag {
    type V = TagModel;

    open spec fn view(&self) -> TagModel {
        TagModel {
            from_frame: self.from_frame,
            to_frame: self.to_frame,
            direction: self.direction,
            repeat: self.repeat,
            name: self.name@,
        }
    }
}

/// The models of tags.
pub open spec fn tag_models(ts: Seq<Tag>) -> Seq<TagModel> {
    Seq::new(ts.len(), |i: int| ts[i]@)
}

impl View for TagsChunk {
    type V = Seq<TagModel>;

    open spec fn view(&self) -> Seq<TagModel> {
        tag_models(self.tags@)
    }
}

/// The bytes of a tag: frames, direction, repeat count, 10 zero bytes
/// (reserved, the deprecated color and one more), then the name.
pub open spec fn tag_bytes(t: TagModel) -> Seq<u8> {
    u16_le(t.from_frame) + u16_le(t.to_frame) + seq![direction_code(t.direction)] + u16_le(
        t.repeat,
    ) + zeros(6) + zeros(3) + zeros(1) + name_bytes(t.name)
}

/// The bytes of the tags, one after another.
pub open spec fn tag_list_bytes(ts: Seq<TagModel>) -> Seq<u8> {
    flat(Seq::new(ts.len(), |i: int| tag_bytes(ts[i])))
}

/// The bytes of a tags chunk: the tag count, 8 reserved bytes, the tags.
pub open spec fn tags_bytes(ts: Seq<TagModel>) -> Seq<u8> {
    u16_le(ts.len() as u16) + zeros(8) + tag_list_bytes(ts)
}

/// What reading a tag at offset `p` of `d` gives, with the offset after it:
/// the direction is checked after the name is read.
pub open spec fn parse_tag(d: Seq<u8>, p: int) -> Result<(TagModel, int), ReadError> {
    if !avail(d, p, 19) {
        Err(ReadError::UnexpectedEnd)
    } else {
        let n = u16_at(d, p + 17) as int;
        if !avail(d, p + 19, n) {
            Err(ReadError::UnexpectedEnd)
        } else {
            match direction_of_code(d[p + 4]) {
                None => Err(ReadError::InvalidAnimationDirection(d[p + 4])),
                Some(direction) => Ok(
                    (
                        TagModel {
                            from_frame: u16_at(d, p),
                            to_frame: u16_at(d, p + 2),
                            direction,
                            repeat: u16_at(d, p + 5),
                            name: lossy_text(d.subrange(p + 19, p + 19 + n)),
                        },
                        p + 19 + n,
                    ),
                ),
            }
        }
    }
}

/// What reading `count` tags from offset `p` of `d` gives, with the offset
/// after them.
pub open spec fn parse_tag_list(d: Seq<u8>, p: int, count: nat) -> Result<
    (Seq<TagModel>, int),
    ReadError,
>
    decreases count,
{
    if count == 0 {
        Ok((Seq::<TagModel>::empty(), p))
    } else {
        match parse_tag(d, p) {
            Err(e) => Err(e),
            Ok((t, q)) => prepend(seq![t], parse_tag_list(d, q, (count - 1) as nat)),
        }
    }
}

/// What reading a tags chunk from `d` gives: the tag count, 8 reserved
/// bytes, then that many tags.
pub open spec fn parse_tags(d: Seq<u8>) -> Result<Seq<TagModel>, ReadError> {
    if !avail(d, 0, 10) {
        Err(ReadError::UnexpectedEnd)
    } else {
        match parse_tag_list(d, 10, u16_at(d, 0) as nat) {
            Err(e) => Err(e),
            Ok((ts, _)) => Ok(ts),
        }
    }
}

/// Whether a tags chunk can be written: at most `u16::MAX` tags, each name
/// fitting a `u16` byte count.
pub open spec fn tags_well_formed(ts: Seq<TagModel>) -> bool {
    &&& ts.len() <= u16::MAX
    &&& forall|i: int| 0 <= i < ts.len() ==> encode_utf8_len(#[trigger] ts[i].name) <= u16::MAX
}

impl Tag {
    /// Appends the tag's bytes.
    pub fn write(&self, data: &mut Vec<u8>)
        requires
            encode_utf8_len(self.name@) <= u16::MAX,
        ensures
            final(data)@ == old(data)@ + tag_bytes(self@),
    {
        put_u16_le(data, self.from_frame);
        put_u16_le(data, self.to_frame);
        put_u8(data, self.direction.to_u8());
        put_u16_le(data, self.repeat);
        put_zeros(data, 6);
        put_zeros(data, 3);
        put_u8(data, 0);
        assert(zeros(1) =~= seq![0u8]);
        put_name(data, &self.name);
        assert(final(data)@ =~= old(data)@ + tag_bytes(self@));
    }

    /// Reads a tag at `pos`: the result is [`parse_tag`] there.
    pub fn read(data: &[u8], pos: usize) -> (r: Result<(Tag, usize), ReadError>)
        requires
            pos <= data@.len(),
        ensures
            match parse_tag(data@, pos as int) {
                Ok((m, q)) => r matches Ok((t, p)) && t@ == m && p == q,
                Err(e) => r matches Err(x) && x == e,
            },
    {
        let (from_frame, p) = read_u16(data, pos)?;
        let (to_frame, p) = read_u16(data, p)?;
        let (direction_val, p) = read_u8(data, p)?;
        let (repeat, p) = read_u16(data, p)?;
        let p = skip_bytes(data, p, 6)?;
        let p = skip_bytes(data, p, 3)?;
        let (_extra, p) = read_u8(data, p)?;
        let (name, p) = read_lossy_name(data, p)?;
        let direction = match AnimationDirection::from_u8(direction_val) {
            Some(d) => d,
            None => {
                return Err(ReadError::InvalidAnimationDirection(direction_val));
            },
        };
        Ok((Tag { from_frame, to_frame, direction, repeat, name }, p))
    }
}

impl TagsChunk {
    /// The chunk type of a tags chunk.
    pub fn chunk_type(&self) -> (t: u16)
        ensures
            t == TAGS_CHUNK_TYPE,
    {
        TAGS_CHUNK_TYPE
    }

    /// The chunk's bytes.
    pub fn to_block(&self) -> (b: Vec<u8>)
        requires
            tags_well_formed(self@),
        ensures
            b@ == tags_bytes(self@),
    {
        let mut data: Vec<u8> = Vec::new();
        put_u16_le(&mut data, self.tags.len() as u16);
        put_zeros(&mut data, 8);
        let ghost head = data@;
        let mut i: usize = 0;
        while i < self.tags.len()
            invariant
                i <= self.tags@.len(),
                tags_well_formed(self@),
                data@ == head + tag_list_bytes(tag_models(self.tags@).take(i as int)),
            decreases self.tags@.len() - i,
        {
            assert(encode_utf8_len(tag_models(self.tags@)[i as int].name) <= u16::MAX);
            let ghost prev = tag_models(self.tags@).take(i as int);
            self.tags[i].write(&mut data);
            proof {
                let next = tag_models(self.tags@).take(i + 1);
                assert(next =~= prev.push(self.tags@[i as int]@));
                assert(Seq::new(next.len(), |j: int| tag_bytes(next[j])) =~= Seq::new(
                    prev.len(),
                    |j: int| tag_bytes(prev[j]),
                ).push(tag_bytes(self.tags@[i as int]@)));
                lemma_flat_push(
                    Seq::new(prev.len(), |j: int| tag_bytes(prev[j])),
                    tag_bytes(self.tags@[i as int]@),
                );
            }
            i = i + 1;
        }
        assert(tag_models(self.tags@).take(i as int) =~= self@);
        data
    }

    /// Reads a tags chunk: the result is [`parse_tags`] of the bytes.
    pub fn from_block(data: &[u8]) -> (r: Result<TagsChunk, ReadError>)
        ensures
            match parse_tags(data@) {
                Ok(m) => r matches Ok(c) && c@ == m,
                Err(e) => r matches Err(x) && x == e,
            },
    {
        let (num_tags, p) = read_u16(data, 0)?;
        let mut p = skip_bytes(data, p, 8)?;
        let mut tags: Vec<Tag> = Vec::new();
        let mut i: u16 = 0;
        while i < num_tags
            invariant
                i <= num_tags,
                p <= data@.len(),
                avail(data@, 0, 10),
                num_tags == u16_at(data@, 0),
                parse_tag_list(data@, 10, num_tags as nat) == prepend(
                    tag_models(tags@),
                    parse_tag_list(data@, p as int, (num_tags - i) as nat),
                ),
            decreases num_tags - i,
        {
            let ghost acc = tag_models(tags@);
            match Tag::read(data, p) {
                Ok((tag, q)) => {
                    proof {
                        lemma_prepend_push(
                            acc,
                            tag@,
                            parse_tag_list(data@, q as int, (num_tags - i - 1) as nat),
                        );
                    }
                    tags.push(tag);
                    assert(tag_models(tags@) =~= acc.push(tag@));
                    p = q;
                },
                Err(e) => {
                    return Err(e);
                },
            }
            i = i + 1;
        }
        assert(prepend(tag_models(tags@), Ok((Seq::<TagModel>::empty(), p as int)))
            == Ok::<(Seq<TagModel>, int), ReadError>((tag_models(tags@), p as int))) by {
            assert(tag_models(tags@) + Seq::<TagModel>::empty() =~= tag_models(tags@));
        }
        Ok(TagsChunk { tags })
    }
}

/// The tags written one after another read back as the tags.
proof fn lemma_tag_list_roundtrip(ts: Seq<TagModel>, d: Seq<u8>, p: int)
    requires
        forall|i: int| 0 <= i < ts.len() ==> encode_utf8_len(#[trigger] ts[i].name) <= u16::MAX,
        0 <= p,
        p + tag_list_bytes(ts).len() <= d.len(),
        d.subrange(p, p + tag_list_bytes(ts).len()) == tag_list_bytes(ts),
    ensures
        parse_tag_list(d, p, ts.len()) == Ok::<(Seq<TagModel>, int), ReadError>(
            (ts, p + tag_list_bytes(ts).len()),
        ),
    decreases ts.len(),
{
    if ts.len() > 0 {
        let t = ts[0];
        let rest = ts.skip(1);
        let tb = tag_bytes(t);
        assert(Seq::new(ts.len(), |i: int| tag_bytes(ts[i])).skip(1) =~= Seq::new(
            rest.len(),
            |i: int| tag_bytes(rest[i]),
        ));
        assert(tag_list_bytes(ts) =~= tb + tag_list_bytes(rest));
        let nb = name_bytes(t.name);
        assert(d.subrange(p, p + tb.len()) =~= tb) by {
            assert(d.subrange(p, p + tb.len()) =~= d.subrange(
                p,
                p + tag_list_bytes(ts).len(),
            ).subrange(0, tb.len() as int));
        }
        assert(d.subrange(p, p + 2) =~= u16_le(t.from_frame)) by {
            assert(d.subrange(p, p + 2) =~= d.subrange(p, p + tb.len()).subrange(0, 2));
        }
        lemma_u16_at(d, p, t.from_frame);
        assert(d.subrange(p + 2, p + 4) =~= u16_le(t.to_frame)) by {
            assert(d.subrange(p + 2, p + 4) =~= d.subrange(p, p + tb.len()).subrange(2, 4));
        }
        lemma_u16_at(d, p + 2, t.to_frame);
        assert(d[p + 4] == d.subrange(p, p + tb.len())[4]);
        assert(d.subrange(p + 5, p + 7) =~= u16_le(t.repeat)) by {
            assert(d.subrange(p + 5, p + 7) =~= d.subrange(p, p + tb.len()).subrange(5, 7));
        }
        lemma_u16_at(d, p + 5, t.repeat);
        assert(d.subrange(p + 17, p + 17 + nb.len()) =~= nb) by {
            assert(d.subrange(p + 17, p + 17 + nb.len()) =~= d.subrange(
                p,
                p + tb.len(),
            ).subrange(17, 17 + nb.len() as int));
        }
        lemma_name_roundtrip(t.name, d, p + 17);
        let q = p + tb.len();
        assert(d.subrange(q, q + tag_list_bytes(rest).len()) =~= tag_list_bytes(rest)) by {
            assert(d.subrange(q, q + tag_list_bytes(rest).len()) =~= d.subrange(
                p,
                p + tag_list_bytes(ts).len(),
            ).subrange(tb.len() as int, tag_list_bytes(ts).len() as int));
        }
        assert forall|i: int| 0 <= i < rest.len() implies encode_utf8_len(
            #[trigger] rest[i].name,
        ) <= u16::MAX by {
            assert(rest[i] == ts[i + 1]);
        }
        lemma_tag_list_roundtrip(rest, d, q);
        assert(seq![t] + rest =~= ts);
        match direction_of_code(direction_code(t.direction)) {
            Some(x) => assert(x == t.direction),
            None => assert(false),
        }
    } else {
        assert(tag_list_bytes(ts).len() == 0);
        assert(ts =~= Seq::<TagModel>::empty());
    }
}

/// Reading a written tags chunk gives it back, for every chunk that can be
/// written.
pub proof fn lemma_tags_roundtrip(ts: Seq<TagModel>)
    requires
        tags_well_formed(ts),
    ensures
        parse_tags(tags_bytes(ts)) == Ok::<Seq<TagModel>, ReadError>(ts),
{
    let d = tags_bytes(ts);
    assert(d.subrange(0, 2) =~= u16_le(ts.len() as u16));
    lemma_u16_at(d, 0, ts.len() as u16);
    assert(d.subrange(10, 10 + tag_list_bytes(ts).len() as int) =~= tag_list_bytes(ts));
    lemma_tag_list_roundtrip(ts, d, 10);
}

} // verus!
