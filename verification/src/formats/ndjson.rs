//! Newline-delimited records (NDJSON framing): each record on a line of its
//! own, each line ended by a newline, no blank lines.
//!
//! This module frames and unframes the records' bytes; what a record holds
//! is read and written elsewhere.
use vstd::prelude::*;

verus! {

/// The newline byte.
pub const NEWLINE: u8 = 10u8;

/// The pieces of `d` between newlines, as splitting at each newline gives
/// them: one more piece than there are newlines.
pub open spec fn split_lines(d: Seq<u8>) -> Seq<Seq<u8>>
    decreases d.len(),
{
    if d.len() == 0 {
        seq![Seq::empty()]
    } else {
        let prev = split_lines(d.drop_last());
        if d.last() == NEWLINE {
            prev.push(Seq::empty())
        } else {
            prev.update(prev.len() - 1, prev.last().push(d.last()))
        }
    }
}

/// Splitting never gives no piece.
proof fn lemma_split_nonempty(d: Seq<u8>)
    ensures
        split_lines(d).len() >= 1,
    decreases d.len(),
{
    if d.len() > 0 {
        lemma_split_nonempty(d.drop_last());
    }
}

/// What can be wrong with framed records.
#[derive(Debug, Clone, Copy, PartialEq, Eq, Structural)]
pub enum NdJsonError {
    /// A line before the last is blank.
    BlankLine,
    /// The data does not end with a newline.
    Unterminated,
    /// A record to write holds a newline.
    NewlineInRecord,
}

impl NdJsonError {
    /// The error's message.
    pub fn message(&self) -> (s: &'static str)
        ensures
            s@ == match self {
                NdJsonError::BlankLine => "Had blank line in the middle of ndjson data."@,
                NdJsonError::Unterminated => "ndjson data must be terminated with a newline."@,
                NdJsonError::NewlineInRecord => "serialized item contained a newline in its representation."@,
            },
    {
        match self {
            NdJsonError::BlankLine => "Had blank line in the middle of ndjson data.",
            NdJsonError::Unterminated => "ndjson data must be terminated with a newline.",
            NdJsonError::NewlineInRecord => "serialized item contained a newline in its representation.",
        }
    }
}

/// The records of `d` and what stopped the reading, if anything: the lines
/// before the last are the records, up to the first blank one, which is an
/// error; the last line must be empty (the data ends with a newline).
pub open spec fn frame_spec(d: Seq<u8>) -> (Seq<Seq<u8>>, Option<NdJsonError>) {
    let p = split_lines(d);
    let n = p.len() - 1;
    if exists|k: int| 0 <= k < n && (#[trigger] p[k]).len() == 0 {
        let k = choose|k: int|
            0 <= k < n && (#[trigger] p[k]).len() == 0 && forall|j: int|
                0 <= j < k ==> (#[trigger] p[j]).len() != 0;
        (p.take(k), Some(NdJsonError::BlankLine))
    } else if n < 1 || p[n].len() != 0 {
        (p.take(n), Some(NdJsonError::Unterminated))
    } else {
        (p.take(n), None)
    }
}

/// Records read from framed data, and the error that stopped the reading.
pub struct Frames {
    /// The records before the error, or all of them.
    pub records: Vec<Vec<u8>>,
    pub error: Option<NdJsonError>,
}

/// The records as byte sequences.
pub open spec fn records_view(rs: Seq<Vec<u8>>) -> Seq<Seq<u8>> {
    Seq::new(rs.len(), |i: int| rs[i]@)
}

/// Reads the records of framed data: the lines before the first blank line
/// (an error) or before the last line, which must be empty.
pub fn frame_records(data: &[u8]) -> (f: Frames)
    ensures
        (records_view(f.records@), f.error) == frame_spec(data@),
{
    let mut records: Vec<Vec<u8>> = Vec::new();
    let mut cur: Vec<u8> = Vec::new();
    let mut blank: bool = false;
    let mut i: usize = 0;
    let ghost mut k: int = 0;
    while i < data.len()
        invariant
            i <= data@.len(),
            ({
                let p = split_lines(data@.take(i as int));
                &&& p.len() >= 1
                &&& cur@ == p.last()
                &&& !blank ==> records_view(records@) == p.take(p.len() - 1) && forall|j: int|
                    0 <= j < p.len() - 1 ==> (#[trigger] p[j]).len() != 0
                &&& blank ==> 0 <= k < p.len() - 1 && p[k].len() == 0 && records_view(records@)
                    == p.take(k) && forall|j: int| 0 <= j < k ==> (#[trigger] p[j]).len() != 0
            }),
        decreases data@.len() - i,
    {
        let ghost p = split_lines(data@.take(i as int));
        let ghost old_records = records_view(records@);
        let ghost old_cur = cur@;
        let b = data[i];
        assert(data@.take(i + 1).drop_last() =~= data@.take(i as int));
        if b == NEWLINE {
            if !blank {
                if cur.len() == 0 {
                    blank = true;
                    proof {
                        k = p.len() - 1;
                    }
                } else {
                    let line = cur;
                    records.push(line);
                    assert(records_view(records@) =~= old_records.push(old_cur));
                }
            }
            cur = Vec::new();
            i = i + 1;
            proof {
                let q = split_lines(data@.take(i as int));
                assert(q == p.push(Seq::<u8>::empty()));
                if !blank {
                    assert(records_view(records@) =~= q.take(q.len() - 1));
                } else {
                    assert(q.take(k) =~= p.take(k));
                }
            }
        } else {
            cur.push(b);
            i = i + 1;
            proof {
                let q = split_lines(data@.take(i as int));
                assert(q == p.update(p.len() - 1, p.last().push(b)));
                if !blank {
                    assert(q.take(q.len() - 1) =~= p.take(p.len() - 1));
                } else {
                    assert(q.take(k) =~= p.take(k));
                }
            }
        }
    }
    assert(data@.take(i as int) =~= data@);
    let ghost p = split_lines(data@);
    let ghost n = p.len() - 1;
    if blank {
        proof {
            let c = choose|c: int|
                0 <= c < n && (#[trigger] p[c]).len() == 0 && forall|j: int|
                    0 <= j < c ==> (#[trigger] p[j]).len() != 0;
            assert(p[k].len() == 0);
            if c < k {
                assert(p[c].len() != 0);
            }
            if k < c {
                assert(p[k].len() != 0);
            }
        }
        Frames { records, error: Some(NdJsonError::BlankLine) }
    } else if records.len() == 0 || cur.len() != 0 {
        Frames { records, error: Some(NdJsonError::Unterminated) }
    } else {
        Frames { records, error: None }
    }
}

/// The framing of records: each followed by a newline.
pub open spec fn join_spec(rs: Seq<Seq<u8>>) -> Seq<u8>
    decreases rs.len(),
{
    if rs.len() == 0 {
        Seq::empty()
    } else {
        join_spec(rs.drop_last()) + rs.last().push(NEWLINE)
    }
}

/// Appends the record `item` to framed data: the record's bytes and a
/// newline. A record with a newline in it is refused, and `out` is left as
/// it was.
pub fn append_record(out: &mut Vec<u8>, item: &[u8]) -> (r: Result<(), NdJsonError>)
    ensures
        r is Err <==> item@.contains(NEWLINE),
        r is Err ==> r == Err::<(), NdJsonError>(NdJsonError::NewlineInRecord) && final(out)@
            == old(out)@,
        r is Ok ==> final(out)@ == old(out)@ + item@.push(NEWLINE),
{
    let mut i: usize = 0;
    while i < item.len()
        invariant
            i <= item@.len(),
            forall|j: int| 0 <= j < i ==> item@[j] != NEWLINE,
        decreases item@.len() - i,
    {
        if item[i] == NEWLINE {
            return Err(NdJsonError::NewlineInRecord);
        }
        i = i + 1;
    }
    let ghost before = out@;
    let mut j: usize = 0;
    while j < item.len()
        invariant
            j <= item@.len(),
            out@ == before + item@.take(j as int),
        decreases item@.len() - j,
    {
        out.push(item[j]);
        j = j + 1;
        assert(out@ =~= before + item@.take(j as int));
    }
    out.push(NEWLINE);
    assert(out@ =~= before + item@.push(NEWLINE));
    Ok(())
}

/// Splitting after a piece without newlines extends the last piece.
proof fn lemma_split_extend(d: Seq<u8>, r: Seq<u8>)
    requires
        !r.contains(NEWLINE),
    ensures
        split_lines(d + r) == split_lines(d).update(
            split_lines(d).len() - 1,
            split_lines(d).last() + r,
        ),
    decreases r.len(),
{
    lemma_split_nonempty(d);
    if r.len() == 0 {
        assert(d + r =~= d);
        assert(split_lines(d).last() + r =~= split_lines(d).last());
        assert(split_lines(d).update(split_lines(d).len() - 1, split_lines(d).last())
            =~= split_lines(d));
    } else {
        let r0 = r.drop_last();
        assert(!r0.contains(NEWLINE)) by {
            if r0.contains(NEWLINE) {
                let j = choose|j: int| 0 <= j < r0.len() && r0[j] == NEWLINE;
                assert(r[j] == NEWLINE);
            }
        }
        lemma_split_extend(d, r0);
        assert((d + r).drop_last() =~= d + r0);
        assert(r[r.len() - 1] != NEWLINE);
        assert((d + r).last() == r.last());
        assert(split_lines(d).last() + r =~= (split_lines(d).last() + r0).push(r.last()));
        let p = split_lines(d);
        let q = p.update(p.len() - 1, p.last() + r0);
        assert(split_lines(d + r) =~= q.update(q.len() - 1, q.last().push(r.last())));
    }
}

/// Splitting framed records gives the records and one empty piece after.
proof fn lemma_split_join(rs: Seq<Seq<u8>>)
    requires
        forall|i: int| 0 <= i < rs.len() ==> !(#[trigger] rs[i]).contains(NEWLINE),
    ensures
        split_lines(join_spec(rs)) == rs.push(Seq::empty()),
    decreases rs.len(),
{
    if rs.len() == 0 {
        assert(split_lines(Seq::<u8>::empty()) =~= seq![Seq::<u8>::empty()]);
        assert(rs.push(Seq::empty()) =~= seq![Seq::<u8>::empty()]);
    } else {
        let prev = rs.drop_last();
        assert forall|i: int| 0 <= i < prev.len() implies !(#[trigger] prev[i]).contains(NEWLINE) by {
            assert(prev[i] == rs[i]);
        }
        lemma_split_join(prev);
        let j0 = join_spec(prev);
        let last = rs.last();
        assert(!rs[rs.len() - 1].contains(NEWLINE));
        lemma_split_extend(j0, last);
        let with_last = j0 + last;
        assert(join_spec(rs) =~= with_last.push(NEWLINE));
        assert(with_last.push(NEWLINE).drop_last() =~= with_last);
        let p = prev.push(Seq::<u8>::empty());
        assert(Seq::<u8>::empty() + last =~= last);
        assert(p.update(p.len() - 1, p.last() + last) =~= rs);
        assert(split_lines(join_spec(rs)) =~= rs.push(Seq::empty()));
    }
}

/// Reading framed records gives back the records that were framed, when
/// there is at least one and none of them is empty or holds a newline.
pub proof fn lemma_frame_join(rs: Seq<Seq<u8>>)
    requires
        rs.len() >= 1,
        forall|i: int|
            0 <= i < rs.len() ==> !(#[trigger] rs[i]).contains(NEWLINE) && rs[i].len() != 0,
    ensures
        frame_spec(join_spec(rs)) == (rs, None::<NdJsonError>),
{
    lemma_split_join(rs);
    let p = split_lines(join_spec(rs));
    assert(p.take(p.len() - 1) =~= rs);
    assert forall|k: int| 0 <= k < p.len() - 1 implies (#[trigger] p[k]).len() != 0 by {
        assert(p[k] == rs[k]);
    }
}

} // verus!
