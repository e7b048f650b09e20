//! Voice samples: the clips that voice a game's messages, and the paths
//! they are read from.
use std::collections::BTreeMap;

use vstd::prelude::*;

use crate::file::{is_sample_of, voiced_once, AudioSampleScan, LineKey};
use crate::strings::str_eq;


verus! {

/// A component of a path, as the platform's path parser gives it.
#[derive(Debug, Clone)]
pub enum PathComponent {
    /// A drive or share prefix (Windows only).
    Prefix(String),
    /// The root directory.
    RootDir,
    /// `.`
    CurDir,
    /// `..`
    ParentDir,
    /// A name.
    Normal(String),
}

/// Whether a `..` can cancel a path buffer's last component: it has one,
/// and it is not a root, a prefix or a `..` kept before.
pub open spec fn can_pop(buf: Seq<PathComponent>) -> bool {
    buf.len() > 0 && !(buf.last() is RootDir) && !(buf.last() is Prefix) && !(
    buf.last() is ParentDir)
}

/// The prefix part of a path buffer.
pub open spec fn prefix_part(buf: Seq<PathComponent>) -> Seq<PathComponent> {
    if buf.len() > 0 && buf[0] is Prefix {
        seq![buf[0]]
    } else {
        seq![]
    }
}

/// The buffer after one component is taken: a prefix starts over, the
/// root keeps only the prefix, `.` is skipped, `..` drops the last
/// component when that is a name and is kept otherwise, a name is added.
pub open spec fn normalize_step(buf: Seq<PathComponent>, c: PathComponent) -> Seq<PathComponent> {
    match c {
        PathComponent::Prefix(_) => seq![c],
        PathComponent::RootDir => prefix_part(buf).push(c),
        PathComponent::CurDir => buf,
        PathComponent::ParentDir => if can_pop(buf) {
            buf.drop_last()
        } else {
            buf.push(c)
        },
        PathComponent::Normal(_) => buf.push(c),
    }
}

/// The normal form of the first `n` components.
pub open spec fn normalize_spec(cs: Seq<PathComponent>, n: int) -> Seq<PathComponent>
    decreases n,
{
    if n <= 0 {
        seq![]
    } else {
        normalize_step(normalize_spec(cs, n - 1), cs[n - 1])
    }
}

/// Normalizes a path's components: drops `.`, and lets `..` drop the
/// name before it, without reading the file system (so that the result
/// may differ from the path where links are involved). A `..` with no name
/// before it to drop is kept, so `../../a/./b/../c` becomes `../../a/c`.
pub fn normalize_path(components: &Vec<PathComponent>) -> (result: Vec<PathComponent>)
    ensures
        result@ == normalize_spec(components@, components@.len() as int),
{
    let mut result: Vec<PathComponent> = Vec::new();
    let mut i: usize = 0;
    while i < components.len()
        invariant
            i <= components@.len(),
            result@ == normalize_spec(components@, i as int),
        decreases components@.len() - i,
    {
        let ghost before = result@;
        match &components[i] {
            PathComponent::Prefix(p) => {
                result = Vec::new();
                result.push(PathComponent::Prefix(p.clone()));
                assert(result@ =~= seq![components@[i as int]]);
            },
            PathComponent::RootDir => {
                let mut kept: Vec<PathComponent> = Vec::new();
                if result.len() > 0 {
                    match &result[0] {
                        PathComponent::Prefix(p) => {
                            kept.push(PathComponent::Prefix(p.clone()));
                        },
                        _ => {},
                    }
                }
                assert(kept@ =~= prefix_part(before));
                kept.push(PathComponent::RootDir);
                result = kept;
            },
            PathComponent::CurDir => {},
            PathComponent::ParentDir => {
                let n = result.len();
                let poppable = n > 0 && match &result[n - 1] {
                    PathComponent::RootDir => false,
                    PathComponent::Prefix(_) => false,
                    PathComponent::ParentDir => false,
                    _ => true,
                };
                if poppable {
                    result.pop();
                    assert(result@ =~= before.drop_last());
                } else {
                    result.push(PathComponent::ParentDir);
                }
            },
            PathComponent::Normal(e) => {
                result.push(PathComponent::Normal(e.clone()));
            },
        }
        i = i + 1;
    }
    result
}

/// Whether components are in normal form: a prefix only first, the root
/// only first or after the prefix, `..` only first or right after the
/// prefix, the root or another `..`, and no `.`.
pub open spec fn is_normal(x: Seq<PathComponent>) -> bool {
    forall|i: int|
        0 <= i < x.len() ==> {
            &&& (#[trigger] x[i] is Prefix ==> i == 0)
            &&& (x[i] is RootDir ==> i == 0 || (i == 1 && x[0] is Prefix))
            &&& (x[i] is ParentDir ==> i == 0 || x[i - 1] is Prefix || x[i - 1] is RootDir
                || x[i - 1] is ParentDir)
            &&& !(x[i] is CurDir)
        }
}

/// Normalizing gives components in normal form.
proof fn lemma_normalize_is_normal(cs: Seq<PathComponent>, n: int)
    requires
        0 <= n <= cs.len(),
    ensures
        is_normal(normalize_spec(cs, n)),
    decreases n,
{
    if n > 0 {
        lemma_normalize_is_normal(cs, n - 1);
        let b = normalize_spec(cs, n - 1);
        let r = normalize_spec(cs, n);
        assert forall|i: int| 0 <= i < r.len() implies {
            &&& (#[trigger] r[i] is Prefix ==> i == 0)
            &&& (r[i] is RootDir ==> i == 0 || (i == 1 && r[0] is Prefix))
            &&& (r[i] is ParentDir ==> i == 0 || r[i - 1] is Prefix || r[i - 1] is RootDir
                || r[i - 1] is ParentDir)
            &&& !(r[i] is CurDir)
        } by {
            if i < b.len() && !(cs[n - 1] is Prefix) && !(cs[n - 1] is RootDir) {
                assert(r[i] == b[i]);
                if i > 0 {
                    assert(r[i - 1] == b[i - 1]);
                }
            }
        }
    }
}

/// Normalizing components in normal form gives them back, one at a time.
proof fn lemma_normal_fixed(x: Seq<PathComponent>, k: int)
    requires
        is_normal(x),
        0 <= k <= x.len(),
    ensures
        normalize_spec(x, k) == x.take(k),
    decreases k,
{
    if k > 0 {
        lemma_normal_fixed(x, k - 1);
        let b = x.take(k - 1);
        let c = x[k - 1];
        assert(x[k - 1] == c);
        match c {
            PathComponent::Prefix(_) => {
                assert(x.take(k) =~= seq![c]);
            },
            PathComponent::RootDir => {
                if k - 1 == 1 {
                    assert(prefix_part(b) =~= seq![x[0]]);
                } else {
                    assert(prefix_part(b) =~= seq![]);
                }
                assert(x.take(k) =~= prefix_part(b).push(c));
            },
            PathComponent::CurDir => {},
            PathComponent::ParentDir => {
                if k - 1 > 0 {
                    assert(b.last() == x[k - 2]);
                }
                assert(!can_pop(b));
                assert(x.take(k) =~= b.push(c));
            },
            PathComponent::Normal(_) => {
                assert(x.take(k) =~= b.push(c));
            },
        }
    }
}

/// Normalizing a normalized path changes nothing.
pub proof fn lemma_normalize_idempotent(cs: Seq<PathComponent>)
    ensures
        ({
            let once = normalize_spec(cs, cs.len() as int);
            normalize_spec(once, once.len() as int) == once
        }),
{
    let once = normalize_spec(cs, cs.len() as int);
    lemma_normalize_is_normal(cs, cs.len() as int);
    lemma_normal_fixed(once, once.len() as int);
    assert(once.take(once.len() as int) =~= once);
}

/// A clip of an audio file: where it starts and ends, in microseconds
/// (the start and the end of the file when not given), and the file's path
/// relative to the samples' directory.
#[derive(Debug, Clone)]
pub struct AudioClip {
    pub start_us: Option<u64>,
    pub end_us: Option<u64>,
    pub path: String,
}

/// The identifier of a message within a room: noun, verb, condition and
/// sequence numbers.
#[derive(Debug, Clone, Copy, PartialEq, Eq, Structural)]
pub struct MessageId {
    pub noun: u8,
    pub verb: u8,
    pub condition: u8,
    pub sequence: u8,
}

/// A sample: the clip that voices a message of a room.
#[derive(Debug, Clone)]
pub struct Sample {
    pub room: u16,
    pub message_id: MessageId,
    pub clip: AudioClip,
}

/// The line that a sample voices.
pub open spec fn sample_key(s: Sample) -> LineKey {
    (s.room, s.message_id.noun, s.message_id.verb, s.message_id.condition, s.message_id.sequence)
}

/// A set of samples.
#[derive(Debug, Clone)]
pub struct SampleSet(pub Vec<Sample>);

/// A directory of samples: its path and its samples.
pub struct SampleDir {
    pub base_path: String,
    pub samples: SampleSet,
}

/// Why samples cannot be made or saved.
#[derive(Debug, Clone)]
pub enum SampleError {
    /// The scan found lines voiced by more than one file.
    DuplicatesInScan,
    /// A clip is not a whole file.
    ClipNotWholeFile,
    /// Files that hold more than one message, with how many each holds.
    SharedPaths(Vec<(String, usize)>),
}

impl SampleDir {
    /// The samples of a scan without duplicates: for each line voiced by
    /// exactly one file, the whole file, in the order of the lines.
    pub fn from_sample_scan(scan: &AudioSampleScan) -> (r: Result<SampleDir, SampleError>)
        ensures
            ({
                let es = scan.entries_spec();
                match r {
                    Err(e) => e is DuplicatesInScan && exists|i: int, j: int|
                        0 <= i < j < es.len() && crate::file::entry_key(es[i])
                            == crate::file::entry_key(es[j]),
                    Ok(dir) => {
                        &&& !exists|i: int, j: int|
                            0 <= i < j < es.len() && crate::file::entry_key(es[i])
                                == crate::file::entry_key(es[j])
                        &&& dir.base_path@ == scan.base_path_spec()
                        &&& forall|a: int, b: int|
                            0 <= a < b < dir.samples.0@.len() ==> sample_key(dir.samples.0@[a])
                                != sample_key(dir.samples.0@[b])
                        &&& forall|a: int, b: int|
                            0 <= a < b < dir.samples.0@.len() ==> crate::file::line_key_lt(
                                sample_key(dir.samples.0@[a]),
                                sample_key(dir.samples.0@[b]),
                            )
                        &&& forall|t: int|
                            0 <= t < dir.samples.0@.len() ==> {
                                let smp = #[trigger] dir.samples.0@[t];
                                &&& voiced_once(es, sample_key(smp))
                                &&& smp.clip.start_us == Some(0u64)
                                &&& smp.clip.end_us is None
                                &&& exists|i: int|
                                    0 <= i < es.len() && crate::file::entry_key(es[i])
                                        == sample_key(smp) && smp.clip.path@
                                        == crate::file::entry_path(es[i])
                            }
                        &&& forall|k: LineKey|
                            voiced_once(es, k) ==> exists|t: int|
                                0 <= t < dir.samples.0@.len() && sample_key(
                                    #[trigger] dir.samples.0@[t],
                                ) == k
                    },
                }
            }),
    {
        if scan.has_duplicates() {
            return Err(SampleError::DuplicatesInScan);
        }
        let valid = scan.get_valid_entries();
        let mut samples: Vec<Sample> = Vec::new();
        let mut i: usize = 0;
        while i < valid.len()
            invariant
                i <= valid@.len(),
                samples@.len() == i,
                forall|t: int|
                    0 <= t < i ==> sample_key(#[trigger] samples@[t]) == valid@[t].0
                        && samples@[t].clip.start_us == Some(valid@[t].1.start_us)
                        && samples@[t].clip.end_us == valid@[t].1.end_us
                        && samples@[t].clip.path@ == valid@[t].1.path@,
            decreases valid@.len() - i,
        {
            let (line_id, sample) = &valid[i];
            let message_id = MessageId {
                noun: line_id.1,
                verb: line_id.2,
                condition: line_id.3,
                sequence: line_id.4,
            };
            let clip = AudioClip {
                start_us: Some(sample.start_us),
                end_us: sample.end_us,
                path: sample.path.clone(),
            };
            samples.push(Sample { room: line_id.0, message_id, clip });
            i = i + 1;
        }
        let dir = SampleDir { base_path: scan.base_path().clone(), samples: SampleSet(samples) };
        proof {
            let es = scan.entries_spec();
            assert forall|t: int| 0 <= t < dir.samples.0@.len() implies {
                let smp = #[trigger] dir.samples.0@[t];
                &&& voiced_once(es, sample_key(smp))
                &&& smp.clip.start_us == Some(0u64)
                &&& smp.clip.end_us is None
                &&& exists|i: int|
                    0 <= i < es.len() && crate::file::entry_key(es[i]) == sample_key(smp)
                        && smp.clip.path@ == crate::file::entry_path(es[i])
            } by {
                assert(is_sample_of(es, valid@[t].0, valid@[t].1));
                let i = choose|i: int|
                    0 <= i < es.len() && crate::file::entry_key(#[trigger] es[i]) == valid@[t].0
                        && valid@[t].1.path@ == crate::file::entry_path(es[i])
                        && valid@[t].1.start_us == 0 && valid@[t].1.end_us is None;
                assert(crate::file::entry_key(es[i]) == sample_key(dir.samples.0@[t]));
            }
            assert forall|k: LineKey| voiced_once(es, k) implies exists|t: int|
                0 <= t < dir.samples.0@.len() && sample_key(#[trigger] dir.samples.0@[t]) == k by {
                let t = choose|t: int| 0 <= t < valid@.len() && (#[trigger] valid@[t]).0 == k;
                assert(sample_key(dir.samples.0@[t]) == k);
            }
        }
        Ok(dir)
    }
}

/// Whether a clip is a whole file: no start but the file's, no end.
pub open spec fn is_whole_file(c: AudioClip) -> bool {
    (c.start_us is None || c.start_us == Some(0u64)) && c.end_us is None
}

/// How many of the first `n` samples are read from `path`.
pub open spec fn path_count(ss: Seq<Sample>, path: Seq<char>, n: int) -> nat
    decreases n,
{
    if n <= 0 {
        0
    } else {
        path_count(ss, path, n - 1) + if ss[n - 1].clip.path@ == path {
            1nat
        } else {
            0nat
        }
    }
}

/// A count of a path reaches two exactly when two samples share it.
proof fn lemma_path_count_two(ss: Seq<Sample>, path: Seq<char>, n: int)
    requires
        0 <= n <= ss.len(),
    ensures
        path_count(ss, path, n) >= 2 <==> exists|i: int, j: int|
            0 <= i < j < n && ss[i].clip.path@ == path && ss[j].clip.path@ == path,
        path_count(ss, path, n) >= 1 <==> exists|i: int| 0 <= i < n && ss[i].clip.path@ == path,
    decreases n,
{
    if n > 0 {
        lemma_path_count_two(ss, path, n - 1);
        if path_count(ss, path, n - 1) >= 1 && ss[n - 1].clip.path@ == path {
            let i = choose|i: int| 0 <= i < n - 1 && ss[i].clip.path@ == path;
            assert(0 <= i < n - 1 < n && ss[i].clip.path@ == path && ss[n - 1].clip.path@ == path);
        }
        if exists|i: int, j: int| 0 <= i < j < n && ss[i].clip.path@ == path && ss[j].clip.path@ == path {
            let (i, j) = choose|i: int, j: int|
                0 <= i < j < n && ss[i].clip.path@ == path && ss[j].clip.path@ == path;
            if j < n - 1 {
                assert(0 <= i < j < n - 1);
            } else {
                assert(0 <= i < n - 1 && ss[i].clip.path@ == path);
            }
        }
        if exists|i: int| 0 <= i < n && ss[i].clip.path@ == path {
            let i = choose|i: int| 0 <= i < n && ss[i].clip.path@ == path;
            if i < n - 1 {
                assert(0 <= i < n - 1 && ss[i].clip.path@ == path);
            }
        }
    }
}

/// Counts the samples read from `path`.
fn count_path(ss: &Vec<Sample>, path: &str) -> (c: usize)
    ensures
        c == path_count(ss@, path@, ss@.len() as int),
{
    let mut c: usize = 0;
    let mut i: usize = 0;
    while i < ss.len()
        invariant
            i <= ss@.len(),
            c == path_count(ss@, path@, i as int),
            c <= i,
        decreases ss@.len() - i,
    {
        if str_eq(ss[i].clip.path.as_str(), path) {
            c = c + 1;
        }
        i = i + 1;
    }
    c
}

/// Checks that samples can be saved to a directory that a scan reads: each
/// clip must be a whole file, and no file may hold two samples. The error
/// for shared files lists each such file once, in the order the samples
/// first name it, with how many samples it holds.
pub fn check_scannable(ss: &Vec<Sample>) -> (r: Result<(), SampleError>)
    ensures
        match r {
            Ok(()) => (forall|i: int| 0 <= i < ss@.len() ==> is_whole_file(#[trigger] ss@[i].clip))
                && !exists|i: int, j: int|
                0 <= i < j < ss@.len() && ss@[i].clip.path@ == ss@[j].clip.path@,
            Err(SampleError::ClipNotWholeFile) => exists|i: int|
                0 <= i < ss@.len() && !is_whole_file(#[trigger] ss@[i].clip),
            Err(SampleError::SharedPaths(ps)) => {
                &&& forall|i: int| 0 <= i < ss@.len() ==> is_whole_file(#[trigger] ss@[i].clip)
                &&& ps@.len() > 0
                &&& forall|a: int, b: int| 0 <= a < b < ps@.len() ==> ps@[a].0@ != ps@[b].0@
                &&& forall|t: int|
                    0 <= t < ps@.len() ==> (#[trigger] ps@[t]).1 == path_count(
                        ss@,
                        ps@[t].0@,
                        ss@.len() as int,
                    ) && ps@[t].1 >= 2
                &&& forall|i: int, j: int|
                    0 <= i < j < ss@.len() && ss@[i].clip.path@ == ss@[j].clip.path@ ==> exists|
                        t: int,
                    | 0 <= t < ps@.len() && (#[trigger] ps@[t]).0@ == ss@[i].clip.path@
            },
            Err(SampleError::DuplicatesInScan) => false,
        },
{
    let n = ss.len();
    let mut i: usize = 0;
    while i < n
        invariant
            n == ss@.len(),
            i <= n,
            forall|j: int| 0 <= j < i ==> is_whole_file(#[trigger] ss@[j].clip),
        decreases n - i,
    {
        let clip = &ss[i].clip;
        let start_ok = match clip.start_us {
            None => true,
            Some(off) => off == 0,
        };
        if !(start_ok && clip.end_us.is_none()) {
            assert(!is_whole_file(ss@[i as int].clip));
            return Err(SampleError::ClipNotWholeFile);
        }
        i = i + 1;
    }
    let mut shared: Vec<(String, usize)> = Vec::new();
    let mut i: usize = 0;
    while i < n
        invariant
            n == ss@.len(),
            i <= n,
            forall|a: int, b: int| 0 <= a < b < shared@.len() ==> shared@[a].0@ != shared@[b].0@,
            forall|t: int|
                0 <= t < shared@.len() ==> (#[trigger] shared@[t]).1 == path_count(
                    ss@,
                    shared@[t].0@,
                    n as int,
                ) && shared@[t].1 >= 2 && exists|j: int| 0 <= j < i && ss@[j].clip.path@ == shared@[t].0@,
            forall|j: int, k: int|
                0 <= j < i && j < k < n && ss@[j].clip.path@ == ss@[k].clip.path@ ==> exists|t: int|
                    0 <= t < shared@.len() && (#[trigger] shared@[t]).0@ == ss@[j].clip.path@,
        decreases n - i,
    {
        let path = ss[i].clip.path.as_str();
        let mut seen = false;
        let mut j: usize = 0;
        while j < i
            invariant
                n == ss@.len(),
                i < n,
                j <= i,
                path@ == ss@[i as int].clip.path@,
                !seen ==> forall|k: int| 0 <= k < j ==> ss@[k].clip.path@ != path@,
                seen ==> exists|k: int| 0 <= k < i && ss@[k].clip.path@ == path@,
            decreases i - j,
        {
            if !seen && str_eq(ss[j].clip.path.as_str(), path) {
                seen = true;
            }
            j = j + 1;
        }
        let ghost shared_before = shared@;
        if !seen {
            let count = count_path(ss, path);
            proof {
                lemma_path_count_two(ss@, path@, n as int);
            }
            if count > 1 {
                proof {
                    assert forall|t: int| 0 <= t < shared@.len() implies shared@[t].0@ != path@ by {
                        let j = choose|j: int| 0 <= j < i && ss@[j].clip.path@ == shared@[t].0@;
                        if shared@[t].0@ == path@ {
                            assert(ss@[j].clip.path@ == path@);
                        }
                    }
                }
                shared.push((String::from_str(path), count));
                proof {
                    assert(shared@[shared@.len() - 1].0@ == ss@[i as int].clip.path@);
                }
            }
        }
        proof {
            assert forall|j: int, k: int|
                0 <= j < i + 1 && j < k < n && ss@[j].clip.path@ == ss@[k].clip.path@ implies exists|t: int|
                    0 <= t < shared@.len() && (#[trigger] shared@[t]).0@ == ss@[j].clip.path@ by {
                if j < i {
                    let t = choose|t: int|
                        0 <= t < shared_before.len() && (#[trigger] shared_before[t]).0@
                            == ss@[j].clip.path@;
                    assert(shared@[t] == shared_before[t]);
                } else if seen {
                    let m = choose|m: int| 0 <= m < i && ss@[m].clip.path@ == path@;
                    let t = choose|t: int|
                        0 <= t < shared_before.len() && (#[trigger] shared_before[t]).0@
                            == ss@[m].clip.path@;
                    assert(shared@[t] == shared_before[t]);
                } else {
                    lemma_path_count_two(ss@, path@, n as int);
                    assert(shared@[shared@.len() - 1].0@ == path@);
                }
            }
            assert forall|t: int| 0 <= t < shared@.len() implies exists|j: int|
                0 <= j < i + 1 && ss@[j].clip.path@ == (#[trigger] shared@[t]).0@ by {
                if t < shared_before.len() {
                    assert(shared@[t] == shared_before[t]);
                    let j = choose|j: int| 0 <= j < i && ss@[j].clip.path@ == shared_before[t].0@;
                    assert(0 <= j < i + 1);
                } else {
                    assert(ss@[i as int].clip.path@ == shared@[t].0@);
                }
            }
        }
        i = i + 1;
    }
    if shared.len() > 0 {
        Err(SampleError::SharedPaths(shared))
    } else {
        proof {
            assert forall|a: int, b: int| 0 <= a < b < ss@.len() implies ss@[a].clip.path@ != ss@[b].clip.path@ by {
                if ss@[a].clip.path@ == ss@[b].clip.path@ {
                    let t = choose|t: int| 0 <= t < shared@.len() && (#[trigger] shared@[t]).0@ == ss@[a].clip.path@;
                }
            }
        }
        Ok(())
    }
}

/// A row of a target's line mapping: a line, the clip file that voices it
/// (relative to the audio files' root), and where in the file the clip
/// starts and ends.
pub struct LineMapping {
    pub line_id: LineKey,
    pub clip_path: String,
    pub clip_start_ns: Option<u64>,
    pub clip_end_ns: Option<u64>,
}

/// A line mapped twice.
#[derive(Debug, Clone, Copy, PartialEq, Eq, Structural)]
pub struct DuplicateLine;

/// What a clip holds: its start, its end and its path.
pub open spec fn clip_model(c: AudioClip) -> (Option<u64>, Option<u64>, Seq<char>) {
    (c.start_us, c.end_us, c.path@)
}

/// The clip that a mapping names, under the audio files' root `root`.
pub open spec fn mapped_clip(m: LineMapping, root: Seq<char>) -> (Option<u64>, Option<u64>, Seq<char>) {
    (m.clip_start_ns, m.clip_end_ns, crate::cli::dist_env::join_spec(root, m.clip_path@))
}

/// Whether two of the mappings name the same line.
pub open spec fn maps_a_line_twice(ms: Seq<LineMapping>) -> bool {
    exists|i: int, j: int| 0 <= i < j < ms.len() && #[trigger] ms[i].line_id == #[trigger] ms[j].line_id
}

/// The clips of the mapped lines, by line: each mapping's clip, its path
/// under `audio_files_root` and its start and end kept as given. Fails when
/// two mappings name the same line.
pub fn line_mappings_to_clip_map(mappings: Vec<LineMapping>, audio_files_root: &str) -> (r: Result<
    BTreeMap<LineKey, AudioClip>,
    DuplicateLine,
>)
    ensures
        r is Err <==> maps_a_line_twice(mappings@),
        r matches Ok(m) ==> {
            &&& forall|k: LineKey| #[trigger]
                m@.contains_key(k) <==> exists|i: int| 0 <= i < mappings@.len() && mappings@[i].line_id == k
            &&& forall|i: int|
                0 <= i < mappings@.len() ==> clip_model(m@[#[trigger] mappings@[i].line_id]) == mapped_clip(
                    mappings@[i],
                    audio_files_root@,
                )
        },
{
    proof {
        crate::file::lemma_line_keys_obey_order();
    }
    let ghost ms = mappings@;
    let mut line_map: BTreeMap<LineKey, AudioClip> = BTreeMap::new();
    let mut i: usize = 0;
    while i < mappings.len()
        invariant
            i <= ms.len(),
            ms == mappings@,
            crate::file::line_keys_obey_order(),
            !maps_a_line_twice(ms.take(i as int)),
            forall|k: LineKey| #[trigger]
                line_map@.contains_key(k) <==> exists|j: int| 0 <= j < i && ms[j].line_id == k,
            forall|j: int|
                0 <= j < i ==> clip_model(line_map@[#[trigger] ms[j].line_id]) == mapped_clip(
                    ms[j],
                    audio_files_root@,
                ),
        decreases ms.len() - i,
    {
        let mapping = &mappings[i];
        let clip = AudioClip {
            start_us: mapping.clip_start_ns,
            end_us: mapping.clip_end_ns,
            path: crate::cli::dist_env::join_path(audio_files_root, mapping.clip_path.as_str()),
        };
        let ghost before = line_map@;
        match line_map.insert(mapping.line_id, clip) {
            Some(_) => {
                proof {
                    let j = choose|j: int| 0 <= j < i && ms[j].line_id == ms[i as int].line_id;
                    assert(ms[j].line_id == ms[i as int].line_id);
                    assert(maps_a_line_twice(ms));
                }
                return Err(DuplicateLine);
            },
            None => {},
        }
        proof {
            let t = ms.take(i + 1);
            assert forall|a: int, b: int| 0 <= a < b < t.len() implies #[trigger] t[a].line_id
                != #[trigger] t[b].line_id by {
                if b < i {
                    assert(t[a] == ms.take(i as int)[a]);
                    assert(t[b] == ms.take(i as int)[b]);
                } else {
                    assert(t[b] == ms[i as int]);
                    assert(t[a] == ms[a]);
                    assert(!before.contains_key(ms[i as int].line_id));
                }
            }
            assert forall|j: int| 0 <= j < i + 1 implies clip_model(
                line_map@[#[trigger] ms[j].line_id],
            ) == mapped_clip(ms[j], audio_files_root@) by {
                if j < i {
                    assert(before.contains_key(ms[j].line_id));
                }
            }
        }
        i = i + 1;
    }
    proof {
        assert(ms.take(ms.len() as int) =~= ms);
    }
    Ok(line_map)
}

} // verus!
