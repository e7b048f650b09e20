//! Scanning a directory of audio samples named by the lines they voice.
//!
//! The walk of the directory is done by the caller, which hands over each
//! audio file whose stem names a line; this module keeps them and finds
//! the lines voiced by more than one file.
use std::collections::BTreeMap;

use vstd::prelude::*;
use vstd::std_specs::cmp::OrdSpec;
use vstd::std_specs::iter::IteratorSpec;

verus! {

broadcast use {vstd::std_specs::btree::group_btree_axioms, vstd::laws_cmp::group_laws_cmp};

/// The identifier of a line: room, noun, verb, condition and sequence
/// numbers, ordered in that order.
pub type LineKey = (u16, u8, u8, u8, u8);

/// The lower case of an ASCII letter; other characters are kept.
pub open spec fn ascii_lower(c: char) -> char {
    if 'A' <= c <= 'Z' {
        ((c as u32) + 32) as char
    } else {
        c
    }
}

/// Whether `ext`, in lower case, is `name`.
pub open spec fn lower_is(ext: Seq<char>, name: Seq<char>) -> bool {
    ext.len() == name.len() && forall|i: int| 0 <= i < ext.len() ==> ascii_lower(#[trigger] ext[i]) == name[i]
}

/// Whether `ext` is the extension of an audio file: `wav`, `mp3`, `ogg`,
/// `flac`, `m4a`, `opus` or `aac`, in any case.
pub open spec fn is_audio_ext(ext: Seq<char>) -> bool {
    lower_is(ext, "wav"@) || lower_is(ext, "mp3"@) || lower_is(ext, "ogg"@) || lower_is(
        ext,
        "flac"@,
    ) || lower_is(ext, "m4a"@) || lower_is(ext, "opus"@) || lower_is(ext, "aac"@)
}

/// Whether `ext` in lower case is the literal `name` (which is lower case
/// ASCII).
fn lower_equals(ext: &str, name: &str) -> (r: bool)
    ensures
        r == lower_is(ext@, name@),
{
    let n = ext.unicode_len();
    if n != name.unicode_len() {
        return false;
    }
    let mut i: usize = 0;
    while i < n
        invariant
            i <= n,
            n == ext@.len(),
            n == name@.len(),
            forall|j: int| 0 <= j < i ==> ascii_lower(#[trigger] ext@[j]) == name@[j],
        decreases n - i,
    {
        let c = ext.get_char(i);
        let d = name.get_char(i);
        let same = if 'A' <= c && c <= 'Z' {
            (c as u32) + 32 == d as u32
        } else {
            c == d
        };
        if !same {
            return false;
        }
        i = i + 1;
    }
    true
}

/// Whether `ext` is the extension of an audio file, in any case. (Lower
/// casing a character outside ASCII never gives one of these ASCII
/// letters but `k`, which none of the extensions has; so only ASCII
/// letters are lowered here.)
pub fn is_audio_file_ext(ext: &str) -> (r: bool)
    ensures
        r == is_audio_ext(ext@),
{
    lower_equals(ext, "wav") || lower_equals(ext, "mp3") || lower_equals(ext, "ogg")
        || lower_equals(ext, "flac") || lower_equals(ext, "m4a") || lower_equals(ext, "opus")
        || lower_equals(ext, "aac")
}

/// Whether two line identifiers are the same.
pub fn key_eq(a: LineKey, b: LineKey) -> (r: bool)
    ensures
        r == (a == b),
{
    a.0 == b.0 && a.1 == b.1 && a.2 == b.2 && a.3 == b.3 && a.4 == b.4
}

/// A sample of a line: where in which file it is, in microseconds.
#[derive(Debug, Clone)]
pub struct AudioSample {
    pub start_us: u64,
    pub end_us: Option<u64>,
    pub path: String,
}

/// A file of samples found by a scan.
#[derive(Debug)]
pub enum AudioSampleEntry {
    /// A file that voices one line, whole.
    PlainFile { line_id: LineKey, path: String },
}

/// The line an entry voices.
pub open spec fn entry_key(e: AudioSampleEntry) -> LineKey {
    match e {
        AudioSampleEntry::PlainFile { line_id, .. } => line_id,
    }
}

/// The path of an entry's file.
pub open spec fn entry_path(e: AudioSampleEntry) -> Seq<char> {
    match e {
        AudioSampleEntry::PlainFile { path, .. } => path@,
    }
}

impl AudioSampleEntry {
    /// The lines the entry voices.
    pub fn line_ids(&self) -> (ids: Vec<LineKey>)
        ensures
            ids@ == seq![entry_key(*self)],
    {
        match self {
            AudioSampleEntry::PlainFile { line_id, .. } => {
                let mut ids = Vec::new();
                ids.push(*line_id);
                ids
            },
        }
    }

    /// The entry's sample of `line_id`: its whole file, if it voices that
    /// line.
    pub fn get_sample(&self, line_id: LineKey) -> (s: Option<AudioSample>)
        ensures
            match s {
                Some(sample) => entry_key(*self) == line_id && sample.start_us == 0
                    && sample.end_us is None && sample.path@ == entry_path(*self),
                None => entry_key(*self) != line_id,
            },
    {
        match self {
            AudioSampleEntry::PlainFile { line_id: id, path } => {
                if key_eq(*id, line_id) {
                    Some(AudioSample { start_us: 0, end_us: None, path: path.clone() })
                } else {
                    None
                }
            },
        }
    }
}

/// The lines the entries voice, in order.
pub open spec fn keys_of(es: Seq<AudioSampleEntry>) -> Seq<LineKey> {
    Seq::new(es.len(), |i: int| entry_key(es[i]))
}

/// The indices below `n` of the keys equal to `k`, in increasing order.
pub open spec fn indices_with(ks: Seq<LineKey>, k: LineKey, n: int) -> Seq<usize>
    decreases n,
{
    if n <= 0 {
        Seq::empty()
    } else {
        let p = indices_with(ks, k, n - 1);
        if ks[n - 1] == k {
            p.push((n - 1) as usize)
        } else {
            p
        }
    }
}

/// Each key of the first `n` keys, with the indices where it occurs.
pub open spec fn index_map(ks: Seq<LineKey>, n: int) -> Map<LineKey, Seq<usize>> {
    Map::new(|k: LineKey| ks.take(n).contains(k), |k: LineKey| indices_with(ks, k, n))
}

/// The indices with key `k` are the positions of `k`, increasing.
pub proof fn lemma_indices_with(ks: Seq<LineKey>, k: LineKey, n: int)
    requires
        0 <= n <= ks.len(),
        n <= usize::MAX,
    ensures
        forall|j: int|
            0 <= j < indices_with(ks, k, n).len() ==> #[trigger] indices_with(ks, k, n)[j] < n
                && ks[indices_with(ks, k, n)[j] as int] == k,
        forall|a: int, b: int|
            0 <= a < b < indices_with(ks, k, n).len() ==> #[trigger] indices_with(ks, k, n)[a]
                < #[trigger] indices_with(ks, k, n)[b],
        forall|i: int| 0 <= i < n && ks[i] == k ==> #[trigger] indices_with(ks, k, n).contains(i as usize),
    decreases n,
{
    if n > 0 {
        lemma_indices_with(ks, k, n - 1);
        let p = indices_with(ks, k, n - 1);
        assert forall|i: int| 0 <= i < n && ks[i] == k implies #[trigger] indices_with(
            ks,
            k,
            n,
        ).contains(i as usize) by {
            if i < n - 1 {
                assert(p.contains(i as usize));
                let c = choose|c: int| 0 <= c < p.len() && p[c] == i as usize;
                assert(indices_with(ks, k, n)[c] == i as usize);
            } else {
                assert(indices_with(ks, k, n)[p.len() as int] == i as usize);
            }
        }
    }
}

/// Keys occur at two places exactly when their indices number more than one.
pub proof fn lemma_duplicate_iff(ks: Seq<LineKey>, k: LineKey)
    requires
        ks.len() <= usize::MAX,
    ensures
        indices_with(ks, k, ks.len() as int).len() > 1 <==> exists|i: int, j: int|
            0 <= i < j < ks.len() && ks[i] == k && ks[j] == k,
{
    let n = ks.len() as int;
    lemma_indices_with(ks, k, n);
    let s = indices_with(ks, k, n);
    if s.len() > 1 {
        let i = s[0] as int;
        let j = s[1] as int;
        assert(ks[i] == k && ks[j] == k && i < j);
    }
    if exists|i: int, j: int| 0 <= i < j < ks.len() && ks[i] == k && ks[j] == k {
        let (i, j) = choose|i: int, j: int| 0 <= i < j < ks.len() && ks[i] == k && ks[j] == k;
        assert(s.contains(i as usize));
        assert(s.contains(j as usize));
        let a = choose|a: int| 0 <= a < s.len() && s[a] == i as usize;
        let b = choose|b: int| 0 <= b < s.len() && s[b] == j as usize;
        assert(a != b);
    }
}

/// A map that indexes keys has, for the key at `i`, the indices of that key.
proof fn lemma_indices_at(m: BTreeMap<LineKey, Vec<usize>>, ks: Seq<LineKey>, n: int, i: int)
    requires
        index_map_model(m) == index_map(ks, n),
        0 <= i < n == ks.len(),
    ensures
        m@.contains_key(ks[i]),
        m@[ks[i]]@ == indices_with(ks, ks[i], n),
{
    assert(ks.take(n) =~= ks);
    assert(ks.take(n)[i] == ks[i]);
    assert(index_map(ks, n).contains_key(ks[i]));
    assert(index_map_model(m).contains_key(ks[i]));
    assert(index_map_model(m)[ks[i]] == m@[ks[i]]@);
    assert(index_map(ks, n)[ks[i]] == indices_with(ks, ks[i], n));
}

/// A file found in a walk of a samples directory: its path relative to the
/// directory, its extension, and the line its stem names, if it names one.
pub struct WalkedFile {
    pub path: String,
    pub extension: Option<String>,
    pub stem_line: Option<LineKey>,
}

/// Whether a walked file is a sample: an audio file whose stem names a line.
pub open spec fn is_walked_sample(f: WalkedFile) -> bool {
    &&& f.extension matches Some(e) && is_audio_ext(e@)
    &&& f.stem_line is Some
}

/// The entries of the walked files that are samples, in the order walked.
pub open spec fn walked_entries(fs: Seq<WalkedFile>) -> Seq<AudioSampleEntry>
    decreases fs.len(),
{
    if fs.len() == 0 {
        seq![]
    } else {
        let f = fs.last();
        let rest = walked_entries(fs.drop_last());
        if is_walked_sample(f) {
            rest.push(AudioSampleEntry::PlainFile { line_id: f.stem_line->0, path: f.path })
        } else {
            rest
        }
    }
}

/// The samples found in a directory: the entries, in the order found, and
/// for each line the indices of the entries that voice it.
pub struct AudioSampleScan {
    base_path: String,
    entries: Vec<AudioSampleEntry>,
    line_id_map: BTreeMap<LineKey, Vec<usize>>,
}

/// The model of a map of indices.
pub open spec fn index_map_model(m: BTreeMap<LineKey, Vec<usize>>) -> Map<LineKey, Seq<usize>> {
    m@.map_values(|v: Vec<usize>| v@)
}

impl AudioSampleScan {
    /// The scan's map of lines to entries indexes its entries.
    #[verifier::type_invariant]
    closed spec fn indexed(&self) -> bool {
        &&& self.entries@.len() <= usize::MAX
        &&& index_map_model(self.line_id_map) == index_map(
            keys_of(self.entries@),
            self.entries@.len() as int,
        )
    }

    /// The entries, in the order found.
    pub closed spec fn entries_spec(&self) -> Seq<AudioSampleEntry> {
        self.entries@
    }

    /// The scanned directory.
    pub closed spec fn base_path_spec(&self) -> Seq<char> {
        self.base_path@
    }

    /// The scan of `base_path` from the files a walk of it found: each
    /// audio file whose stem names a line is an entry, in the order walked.
    pub fn read_from_walk(base_path: String, files: Vec<WalkedFile>) -> (scan: Self)
        ensures
            scan.entries_spec() == walked_entries(files@),
            scan.base_path_spec() == base_path@,
    {
        let ghost fs = files@;
        let mut entries: Vec<AudioSampleEntry> = Vec::new();
        let ghost mut seen: int = 0;
        for f in it: files.into_iter()
            invariant
                it.seq() == fs,
                seen == it.index(),
                entries@ == walked_entries(fs.take(seen)),
        {
            proof {
                assert(fs.take(seen + 1).drop_last() =~= fs.take(seen));
                assert(fs.take(seen + 1).last() == f);
            }
            let keep = match &f.extension {
                Some(e) => is_audio_file_ext(e.as_str()),
                None => false,
            };
            if keep {
                if let Some(line_id) = f.stem_line {
                    entries.push(AudioSampleEntry::PlainFile { line_id, path: f.path });
                }
            }
            proof {
                seen = seen + 1;
            }
        }
        proof {
            assert(fs.take(seen) =~= fs);
        }
        Self::from_entries(base_path, entries)
    }

    /// The scan of `base_path` that found `entries`, in that order.
    pub fn from_entries(base_path: String, entries: Vec<AudioSampleEntry>) -> (scan: Self)
        ensures
            scan.entries_spec() == entries@,
            scan.base_path_spec() == base_path@,
    {
        let ghost ks = keys_of(entries@);
        let mut line_id_map: BTreeMap<LineKey, Vec<usize>> = BTreeMap::new();
        let mut i: usize = 0;
        assert(index_map_model(line_id_map) =~= index_map(ks, 0));
        while i < entries.len()
            invariant
                i <= entries@.len(),
                ks == keys_of(entries@),
                index_map_model(line_id_map) == index_map(ks, i as int),
            decreases entries@.len() - i,
        {
            let key = match &entries[i] {
                AudioSampleEntry::PlainFile { line_id, .. } => *line_id,
            };
            assert(key == ks[i as int]);
            let ghost before = index_map_model(line_id_map);
            let ghost m0 = line_id_map@;
            let mut indices = match line_id_map.remove(&key) {
                Some(v) => v,
                None => Vec::new(),
            };
            proof {
                if before.contains_key(key) {
                    assert(indices@ == before[key]);
                    assert(before[key] == indices_with(ks, key, i as int));
                } else {
                    assert forall|j: int| 0 <= j < i implies ks[j] != key by {
                        assert(ks.take(i as int)[j] == ks[j]);
                        if ks[j] == key {
                            assert(ks.take(i as int).contains(key));
                        }
                    }
                    lemma_indices_with(ks, key, i as int);
                    if indices_with(ks, key, i as int).len() > 0 {
                        let j = indices_with(ks, key, i as int)[0];
                        assert(ks[j as int] == key);
                    }
                    assert(indices@ =~= indices_with(ks, key, i as int));
                }
            }
            indices.push(i);
            line_id_map.insert(key, indices);
            proof {
                let after = index_map_model(line_id_map);
                let target = index_map(ks, i + 1);
                assert(line_id_map@ == m0.remove(key).insert(key, indices));
                assert forall|k: LineKey| #[trigger] after.contains_key(k) == (k == key || before.contains_key(k)) by {}
                assert forall|k: LineKey| #[trigger] before.contains_key(k) == ks.take(i as int).contains(k) by {}
                assert(ks.take(i + 1) =~= ks.take(i as int).push(key));
                assert forall|k: LineKey| after.contains_key(k) <==> target.contains_key(k) by {
                    if k == key {
                        assert(ks.take(i + 1)[i as int] == key);
                    } else {
                        if ks.take(i as int).contains(k) {
                            let j = choose|j: int| 0 <= j < i && #[trigger] ks.take(i as int)[j] == k;
                            assert(ks.take(i + 1)[j] == k);
                        }
                        if ks.take(i + 1).contains(k) {
                            let j = choose|j: int| 0 <= j < i + 1 && #[trigger] ks.take(i + 1)[j] == k;
                            assert(j < i);
                            assert(ks.take(i as int)[j] == k);
                        }
                    }
                }
                assert forall|k: LineKey| after.contains_key(k) implies after[k] == target[k] by {
                    if k == key {
                        assert(after[k] == indices_with(ks, key, i as int).push(i));
                    } else {
                        assert(after[k] == before[k]);
                    }
                }
                assert(after =~= target);
            }
            i = i + 1;
        }
        assert(ks.take(entries@.len() as int) =~= ks);
        AudioSampleScan { base_path, entries, line_id_map }
    }

    /// The scanned directory.
    pub fn base_path(&self) -> (p: &String)
        ensures
            p@ == self.base_path_spec(),
    {
        &self.base_path
    }

    /// The entries, in the order found.
    pub fn entries(&self) -> (es: &Vec<AudioSampleEntry>)
        ensures
            es@ == self.entries_spec(),
    {
        &self.entries
    }

    /// Whether some line is voiced by more than one entry.
    pub fn has_duplicates(&self) -> (r: bool)
        ensures
            r == exists|i: int, j: int|
                0 <= i < j < self.entries_spec().len() && entry_key(self.entries_spec()[i])
                    == entry_key(self.entries_spec()[j]),
    {
        proof {
            use_type_invariant(self);
        }
        let ghost ks = keys_of(self.entries@);
        let ghost n = self.entries@.len() as int;
        let mut i: usize = 0;
        while i < self.entries.len()
            invariant
                i <= self.entries@.len(),
                n == self.entries@.len(),
                ks == keys_of(self.entries@),
                self.entries@.len() <= usize::MAX,
                index_map_model(self.line_id_map) == index_map(ks, n),
                forall|a: int, b: int| 0 <= a < i && a < b < n ==> ks[a] != ks[b],
            decreases self.entries@.len() - i,
        {
            let key = match &self.entries[i] {
                AudioSampleEntry::PlainFile { line_id, .. } => *line_id,
            };
            assert(key == ks[i as int]);
            assert(ks.take(n) =~= ks);
            assert(ks.take(n)[i as int] == key);
            proof {
                lemma_indices_at(self.line_id_map, ks, n, i as int);
            }
            let count = match self.line_id_map.get(&key) {
                Some(v) => v.len(),
                None => 0,
            };
            proof {
                lemma_duplicate_iff(ks, key);
            }
            if count > 1 {
                proof {
                    let (a, b) = choose|a: int, b: int| 0 <= a < b < ks.len() && ks[a] == key && ks[b] == key;
                    assert(ks[a] == entry_key(self.entries_spec()[a]));
                    assert(ks[b] == entry_key(self.entries_spec()[b]));
                    assert(0 <= a < b < self.entries_spec().len() && entry_key(self.entries_spec()[a])
                        == entry_key(self.entries_spec()[b]));
                }
                return true;
            }
            proof {
                assert forall|a: int, b: int| 0 <= a < i + 1 && a < b < n implies ks[a] != ks[b] by {
                    if a == i && ks[a] == ks[b] {
                        assert(ks[a] == key && ks[b] == key);
                    }
                }
            }
            i = i + 1;
        }
        proof {
            assert forall|a: int, b: int| 0 <= a < b < n implies entry_key(self.entries@[a])
                != entry_key(self.entries@[b]) by {
                assert(ks[a] != ks[b]);
            }
        }
        false
    }
}

/// Whether a count is one (`one`) or more than one (`!one`).
pub open spec fn count_fits(len: nat, one: bool) -> bool {
    if one {
        len == 1
    } else {
        len > 1
    }
}

/// The keys, in order, of the pairs in `s` whose value has one element
/// (`one`) or more than one (`!one`).
pub open spec fn keys_counted<K>(s: Seq<(&K, &Vec<usize>)>, one: bool) -> Seq<K>
    decreases s.len(),
{
    if s.len() == 0 {
        Seq::empty()
    } else {
        let prev = keys_counted(s.drop_last(), one);
        if count_fits(s.last().1@.len(), one) {
            prev.push(*s.last().0)
        } else {
            prev
        }
    }
}

/// The keys counted in `s` are the keys of its pairs whose count fits; when
/// the keys of `s` are distinct, so are they.
proof fn lemma_keys_counted<K>(s: Seq<(&K, &Vec<usize>)>, one: bool)
    ensures
        forall|k: K|
            #[trigger] keys_counted(s, one).contains(k) <==> exists|i: int|
                0 <= i < s.len() && *s[i].0 == k && count_fits(s[i].1@.len(), one),
        (forall|i: int, j: int| 0 <= i < j < s.len() ==> *s[i].0 != *s[j].0) ==> keys_counted(
            s,
            one,
        ).no_duplicates(),
    decreases s.len(),
{
    if s.len() > 0 {
        let p = s.drop_last();
        lemma_keys_counted(p, one);
        let sp = keys_counted(p, one);
        assert(keys_counted(s, one) == if count_fits(s.last().1@.len(), one) {
            sp.push(*s.last().0)
        } else {
            sp
        });
        assert forall|k: K|
            #[trigger] keys_counted(s, one).contains(k) <==> exists|i: int|
                0 <= i < s.len() && *s[i].0 == k && count_fits(s[i].1@.len(), one) by {
            if keys_counted(s, one).contains(k) {
                let c = choose|c: int| 0 <= c < keys_counted(s, one).len() && keys_counted(s, one)[c] == k;
                if c < sp.len() {
                    assert(sp[c] == k);
                    assert(sp.contains(k));
                    let i = choose|i: int| 0 <= i < p.len() && *p[i].0 == k && count_fits(p[i].1@.len(), one);
                    assert(s[i] == p[i]);
                    assert(0 <= i < s.len() && *s[i].0 == k && count_fits(s[i].1@.len(), one));
                } else {
                    let i = s.len() - 1;
                    assert(0 <= i < s.len() && *s[i].0 == k && count_fits(s[i].1@.len(), one));
                }
            }
            if exists|i: int| 0 <= i < s.len() && *s[i].0 == k && count_fits(s[i].1@.len(), one) {
                let i = choose|i: int| 0 <= i < s.len() && *s[i].0 == k && count_fits(s[i].1@.len(), one);
                if i < s.len() - 1 {
                    assert(p[i] == s[i]);
                    assert(0 <= i < p.len() && *p[i].0 == k && count_fits(p[i].1@.len(), one));
                    assert(sp.contains(k));
                    let c = choose|c: int| 0 <= c < sp.len() && sp[c] == k;
                    if count_fits(s.last().1@.len(), one) {
                        assert(keys_counted(s, one)[c] == k);
                    }
                } else {
                    assert(keys_counted(s, one)[keys_counted(s, one).len() - 1] == k);
                }
            }
        }
        if forall|i: int, j: int| 0 <= i < j < s.len() ==> *s[i].0 != *s[j].0 {
            assert forall|i: int, j: int| 0 <= i < j < p.len() implies *p[i].0 != *p[j].0 by {
                assert(p[i] == s[i] && p[j] == s[j]);
            }
            if count_fits(s.last().1@.len(), one) {
                let k = *s.last().0;
                if sp.contains(k) {
                    let i = choose|i: int| 0 <= i < p.len() && *p[i].0 == k && count_fits(p[i].1@.len(), one);
                    assert(s[i] == p[i]);
                    assert(*s[i].0 == *s[s.len() - 1].0);
                }
            }
        }
    }
}

/// Whether line identifiers, as keys of a `BTreeMap`, obey their order.
pub open spec fn line_keys_obey_order() -> bool {
    vstd::std_specs::btree::key_obeys_cmp_spec::<LineKey>()
}

/// Line identifiers obey their order as keys of a `BTreeMap`.
pub(crate) proof fn lemma_line_keys_obey_order()
    ensures
        line_keys_obey_order(),
{
    lemma_line_keys_ordered();
}

/// Line identifiers are ordered keys of a `BTreeMap`.
proof fn lemma_line_keys_ordered()
    ensures
        vstd::std_specs::btree::key_obeys_cmp_spec::<LineKey>(),
{
}

/// Whether `sample` is the whole file of the entry among `es` that voices
/// `k`.
pub open spec fn is_sample_of(es: Seq<AudioSampleEntry>, k: LineKey, sample: AudioSample) -> bool {
    exists|i: int|
        0 <= i < es.len() && entry_key(#[trigger] es[i]) == k && sample.path@ == entry_path(es[i])
            && sample.start_us == 0 && sample.end_us is None
}

/// Whether exactly one entry of `es` voices `k`.
pub open spec fn voiced_once(es: Seq<AudioSampleEntry>, k: LineKey) -> bool {
    &&& exists|i: int| 0 <= i < es.len() && entry_key(#[trigger] es[i]) == k
    &&& !exists|i: int, j: int|
        0 <= i < j < es.len() && entry_key(#[trigger] es[i]) == k && entry_key(#[trigger] es[j]) == k
}

/// Whether the line `a` comes before `b`: by room, noun, verb, condition,
/// then sequence number.
pub open spec fn line_key_lt(a: LineKey, b: LineKey) -> bool {
    a.0 < b.0 || (a.0 == b.0 && (a.1 < b.1 || (a.1 == b.1 && (a.2 < b.2 || (a.2 == b.2 && (a.3
        < b.3 || (a.3 == b.3 && a.4 < b.4)))))))
}

/// The keys of the entries of a map, listed in increasing order, come in
/// the order of lines.
proof fn lemma_line_keys_increase<V>(s: Seq<(&LineKey, &V)>)
    requires
        vstd::std_specs::btree::increasing_seq(s.map_values(|kv: (&LineKey, &V)| *kv.0)),
    ensures
        forall|i: int, j: int| 0 <= i < j < s.len() ==> line_key_lt(*s[i].0, *s[j].0),
{
    let ks = s.map_values(|kv: (&LineKey, &V)| *kv.0);
    assert forall|i: int, j: int| 0 <= i < j < s.len() implies line_key_lt(*s[i].0, *s[j].0) by {
        assert(ks[i].cmp_spec(&ks[j]) is Less);
    }
}

/// The keys counted in `s` keep the order of `s`'s keys.
proof fn lemma_keys_counted_sorted(s: Seq<(&LineKey, &Vec<usize>)>, one: bool)
    requires
        forall|i: int, j: int| 0 <= i < j < s.len() ==> line_key_lt(*s[i].0, *s[j].0),
    ensures
        forall|a: int, b: int|
            0 <= a < b < keys_counted(s, one).len() ==> line_key_lt(
                keys_counted(s, one)[a],
                keys_counted(s, one)[b],
            ),
    decreases s.len(),
{
    if s.len() > 0 {
        let p = s.drop_last();
        assert forall|i: int, j: int| 0 <= i < j < p.len() implies line_key_lt(*p[i].0, *p[j].0) by {
            assert(p[i] == s[i] && p[j] == s[j]);
        }
        lemma_keys_counted_sorted(p, one);
        lemma_keys_counted(p, one);
        let kp = keys_counted(p, one);
        if count_fits(s.last().1@.len(), one) {
            let kc = keys_counted(s, one);
            assert(kc == kp.push(*s.last().0));
            assert forall|a: int, b: int| 0 <= a < b < kc.len() implies line_key_lt(kc[a], kc[b]) by {
                if b == kc.len() - 1 {
                    assert(kp.contains(kp[a]));
                    let i = choose|i: int| 0 <= i < p.len() && *p[i].0 == kp[a] && count_fits(
                        p[i].1@.len(),
                        one,
                    );
                    assert(p[i] == s[i]);
                    assert(line_key_lt(*s[i].0, *s[s.len() - 1].0));
                } else {
                    assert(kc[a] == kp[a] && kc[b] == kp[b]);
                }
            }
        }
    }
}

/// Whether more than one entry of `es` voices `k`.
pub open spec fn voiced_twice(es: Seq<AudioSampleEntry>, k: LineKey) -> bool {
    exists|i: int, j: int|
        0 <= i < j < es.len() && entry_key(#[trigger] es[i]) == k && entry_key(#[trigger] es[j]) == k
}

/// Every line that some entry voices is voiced either once or more than
/// once, never both: it is listed by exactly one of `get_valid_entries` and
/// `get_duplicates`.
pub proof fn lemma_voiced_once_or_twice(es: Seq<AudioSampleEntry>, k: LineKey)
    requires
        exists|i: int| 0 <= i < es.len() && entry_key(#[trigger] es[i]) == k,
    ensures
        voiced_once(es, k) != voiced_twice(es, k),
{
}

/// Whether `samples` are the whole files of the entries of `es` that voice
/// `k`, in the order found.
pub open spec fn are_samples_of(es: Seq<AudioSampleEntry>, k: LineKey, samples: Seq<AudioSample>) -> bool {
    let idx = indices_with(keys_of(es), k, es.len() as int);
    &&& samples.len() == idx.len()
    &&& forall|u: int|
        0 <= u < samples.len() ==> (#[trigger] samples[u]).path@ == entry_path(es[idx[u] as int])
            && samples[u].start_us == 0 && samples[u].end_us is None
}

impl AudioSampleScan {
    /// The samples of `k` of the entries at `indices`, the indices of the
    /// entries that voice `k`.
    fn samples_at(&self, k: LineKey, indices: &Vec<usize>) -> (samples: Vec<AudioSample>)
        requires
            indices@ == indices_with(
                keys_of(self.entries_spec()),
                k,
                self.entries_spec().len() as int,
            ),
        ensures
            are_samples_of(self.entries_spec(), k, samples@),
    {
        proof {
            use_type_invariant(self);
        }
        let ghost es = self.entries@;
        let ghost n = es.len() as int;
        proof {
            lemma_indices_with(keys_of(es), k, n);
        }
        let mut samples: Vec<AudioSample> = Vec::new();
        let mut u: usize = 0;
        while u < indices.len()
            invariant
                es == self.entries@,
                n == es.len(),
                indices@ == indices_with(keys_of(es), k, n),
                forall|j: int|
                    0 <= j < indices@.len() ==> #[trigger] indices@[j] < n && keys_of(es)[indices@[j] as int]
                        == k,
                u <= indices@.len(),
                samples@.len() == u,
                forall|w: int|
                    0 <= w < u ==> (#[trigger] samples@[w]).path@ == entry_path(es[indices@[w] as int])
                        && samples@[w].start_us == 0 && samples@[w].end_us is None,
            decreases indices@.len() - u,
        {
            let index = indices[u];
            assert(keys_of(es)[index as int] == entry_key(es[index as int]));
            let sample = match self.entries[index].get_sample(k) {
                Some(smp) => smp,
                None => {
                    proof {
                        assert(false);
                    }
                    return samples;
                },
            };
            samples.push(sample);
            u = u + 1;
        }
        samples
    }

    /// The lines voiced by more than one entry, each once, with the samples
    /// of all the entries that voice it, in the order of the lines.
    pub fn get_duplicates(&self) -> (r: Vec<(LineKey, Vec<AudioSample>)>)
        ensures
            forall|a: int, b: int| 0 <= a < b < r@.len() ==> r@[a].0 != r@[b].0,
            forall|a: int, b: int| 0 <= a < b < r@.len() ==> line_key_lt(r@[a].0, r@[b].0),
            forall|t: int|
                0 <= t < r@.len() ==> voiced_twice(self.entries_spec(), (#[trigger] r@[t]).0)
                    && are_samples_of(self.entries_spec(), r@[t].0, r@[t].1@),
            forall|k: LineKey|
                voiced_twice(self.entries_spec(), k) ==> exists|t: int|
                    0 <= t < r@.len() && (#[trigger] r@[t]).0 == k,
    {
        proof {
            use_type_invariant(self);
            lemma_line_keys_ordered();
        }
        let ghost es = self.entries@;
        let ghost ks = keys_of(es);
        let ghost n = es.len() as int;
        let ghost s = vstd::std_specs::btree::spec_btree_map_iter(&self.line_id_map).remaining();
        let mut r: Vec<(LineKey, Vec<AudioSample>)> = Vec::new();
        let ghost mut seen: int = 0;
        for (k, v) in it: self.line_id_map.iter()
            invariant
                it.seq() == s,
                seen == it.index(),
                es == self.entries@,
                ks == keys_of(es),
                n == es.len(),
                n <= usize::MAX,
                index_map_model(self.line_id_map) == index_map(ks, n),
                forall|j: int|
                    #![trigger s[j]]
                    0 <= j < s.len() ==> self.line_id_map@.contains_key(*s[j].0)
                        && self.line_id_map@[*s[j].0] == *s[j].1,
                vstd::std_specs::btree::increasing_seq(
                    s.map_values(|kv: (&LineKey, &Vec<usize>)| *kv.0),
                ),
                r@.len() == keys_counted(s.take(seen), false).len(),
                forall|t: int|
                    0 <= t < r@.len() ==> (#[trigger] r@[t]).0 == keys_counted(s.take(seen), false)[t]
                        && are_samples_of(es, r@[t].0, r@[t].1@),
        {
            assert(s.take(seen + 1).drop_last() =~= s.take(seen));
            assert(s[seen] == (k, v));
            if v.len() > 1 {
                proof {
                    let km = *k;
                    assert(index_map_model(self.line_id_map).contains_key(km));
                    assert(index_map(ks, n)[km] == v@);
                }
                let samples = self.samples_at(*k, v);
                r.push((*k, samples));
            }
            proof {
                seen = seen + 1;
            }
        }
        proof {
            assert(s.take(seen) =~= s);
            lemma_keys_counted(s, false);
            lemma_line_keys_increase(s);
            lemma_keys_counted_sorted(s, false);
            let multiple = keys_counted(s, false);
            assert forall|a: int, b: int| 0 <= a < b < r@.len() implies line_key_lt(
                r@[a].0,
                r@[b].0,
            ) by {
                assert(r@[a].0 == multiple[a] && r@[b].0 == multiple[b]);
            }
            assert forall|i: int, j: int| 0 <= i < j < s.len() implies *s[i].0 != *s[j].0 by {
                if *s[i].0 == *s[j].0 {
                    assert(self.line_id_map@[*s[i].0] == *s[i].1);
                    assert(self.line_id_map@[*s[j].0] == *s[j].1);
                    assert(s[i] == s[j]);
                }
            }
            assert forall|a: int, b: int| 0 <= a < b < r@.len() implies r@[a].0 != r@[b].0 by {
                assert(r@[a].0 == multiple[a] && r@[b].0 == multiple[b]);
            }
            assert forall|t: int| 0 <= t < r@.len() implies voiced_twice(
                self.entries_spec(),
                (#[trigger] r@[t]).0,
            ) by {
                let k = r@[t].0;
                assert(multiple[t] == k);
                assert(multiple.contains(k));
                let j = choose|j: int| 0 <= j < s.len() && *s[j].0 == k && count_fits(s[j].1@.len(), false);
                assert(self.line_id_map@[k] == *s[j].1);
                assert(index_map_model(self.line_id_map).contains_key(k));
                assert(index_map(ks, n)[k].len() > 1);
                lemma_duplicate_iff(ks, k);
                let (a, b) = choose|a: int, b: int| 0 <= a < b < ks.len() && ks[a] == k && ks[b] == k;
                assert(entry_key(es[a]) == k && entry_key(es[b]) == k);
            }
            assert forall|k: LineKey| voiced_twice(self.entries_spec(), k) implies exists|t: int|
                0 <= t < r@.len() && (#[trigger] r@[t]).0 == k by {
                let (a, b) = choose|a: int, b: int|
                    0 <= a < b < es.len() && entry_key(#[trigger] es[a]) == k && entry_key(
                        #[trigger] es[b],
                    ) == k;
                assert(ks[a] == k && ks[b] == k);
                lemma_indices_at(self.line_id_map, ks, n, a);
                lemma_duplicate_iff(ks, k);
                let mk = self.line_id_map@[k];
                assert(s.contains((&k, &mk)));
                let j = choose|j: int| 0 <= j < s.len() && s[j] == (&k, &mk);
                assert(*s[j].0 == k && count_fits(s[j].1@.len(), false));
                assert(multiple.contains(k));
                let t = choose|t: int| 0 <= t < multiple.len() && multiple[t] == k;
                assert(r@[t].0 == k);
            }
        }
        r
    }
}

impl AudioSampleScan {
    /// The lines voiced by exactly one entry, each once, with that entry's
    /// sample, in the order of the lines.
    pub fn get_valid_entries(&self) -> (r: Vec<(LineKey, AudioSample)>)
        ensures
            forall|a: int, b: int| 0 <= a < b < r@.len() ==> r@[a].0 != r@[b].0,
            forall|a: int, b: int| 0 <= a < b < r@.len() ==> line_key_lt(r@[a].0, r@[b].0),
            forall|t: int|
                0 <= t < r@.len() ==> voiced_once(self.entries_spec(), (#[trigger] r@[t]).0)
                    && is_sample_of(self.entries_spec(), r@[t].0, r@[t].1),
            forall|k: LineKey|
                voiced_once(self.entries_spec(), k) ==> exists|t: int|
                    0 <= t < r@.len() && (#[trigger] r@[t]).0 == k,
    {
        proof {
            use_type_invariant(self);
            lemma_line_keys_ordered();
        }
        let ghost es = self.entries@;
        let ghost ks = keys_of(es);
        let ghost n = es.len() as int;
        let ghost s = vstd::std_specs::btree::spec_btree_map_iter(&self.line_id_map).remaining();
        let mut r: Vec<(LineKey, AudioSample)> = Vec::new();
        let ghost mut seen: int = 0;
        for (k, v) in it: self.line_id_map.iter()
            invariant
                it.seq() == s,
                seen == it.index(),
                es == self.entries@,
                ks == keys_of(es),
                n == es.len(),
                n <= usize::MAX,
                index_map_model(self.line_id_map) == index_map(ks, n),
                forall|j: int|
                    #![trigger s[j]]
                    0 <= j < s.len() ==> self.line_id_map@.contains_key(*s[j].0)
                        && self.line_id_map@[*s[j].0] == *s[j].1,
                vstd::std_specs::btree::increasing_seq(
                    s.map_values(|kv: (&LineKey, &Vec<usize>)| *kv.0),
                ),
                r@.len() == keys_counted(s.take(seen), true).len(),
                forall|t: int|
                    0 <= t < r@.len() ==> (#[trigger] r@[t]).0 == keys_counted(s.take(seen), true)[t]
                        && is_sample_of(es, r@[t].0, r@[t].1),
        {
            assert(s.take(seen + 1).drop_last() =~= s.take(seen));
            assert(s[seen] == (k, v));
            if v.len() == 1 {
                let index = v[0];
                proof {
                    let km = *k;
                    assert(index_map_model(self.line_id_map).contains_key(km));
                    assert(index_map(ks, n)[km] == v@);
                    lemma_indices_with(ks, km, n);
                    assert(index < n && ks[index as int] == km);
                }
                let sample = match self.entries[index].get_sample(*k) {
                    Some(smp) => smp,
                    None => {
                        proof {
                            assert(false);
                        }
                        return r;
                    },
                };
                r.push((*k, sample));
                proof {
                    assert(is_sample_of(es, *k, sample)) by {
                        assert(entry_key(es[index as int]) == *k);
                    }
                }
            }
            proof {
                seen = seen + 1;
            }
        }
        proof {
            assert(s.take(seen) =~= s);
            lemma_keys_counted(s, true);
            lemma_line_keys_increase(s);
            lemma_keys_counted_sorted(s, true);
            let single = keys_counted(s, true);
            assert forall|a: int, b: int| 0 <= a < b < r@.len() implies line_key_lt(
                r@[a].0,
                r@[b].0,
            ) by {
                assert(r@[a].0 == single[a] && r@[b].0 == single[b]);
            }
            assert forall|i: int, j: int| 0 <= i < j < s.len() implies *s[i].0 != *s[j].0 by {
                if *s[i].0 == *s[j].0 {
                    assert(self.line_id_map@[*s[i].0] == *s[i].1);
                    assert(self.line_id_map@[*s[j].0] == *s[j].1);
                    assert(s[i] == s[j]);
                }
            }
            assert forall|a: int, b: int| 0 <= a < b < r@.len() implies r@[a].0 != r@[b].0 by {
                assert(r@[a].0 == single[a] && r@[b].0 == single[b]);
            }
            assert forall|t: int| 0 <= t < r@.len() implies voiced_once(
                self.entries_spec(),
                (#[trigger] r@[t]).0,
            ) by {
                let k = r@[t].0;
                assert(single[t] == k);
                assert(single.contains(k));
                let j = choose|j: int| 0 <= j < s.len() && *s[j].0 == k && s[j].1@.len() == 1;
                assert(self.line_id_map@[k] == *s[j].1);
                assert(index_map_model(self.line_id_map).contains_key(k));
                assert(index_map(ks, n)[k].len() == 1);
                lemma_duplicate_iff(ks, k);
                lemma_indices_with(ks, k, n);
                let i = index_map(ks, n)[k][0] as int;
                assert(ks[i] == k);
                assert(entry_key(es[i]) == k);
                if exists|a: int, b: int|
                    0 <= a < b < es.len() && entry_key(#[trigger] es[a]) == k && entry_key(
                        #[trigger] es[b],
                    ) == k {
                    let (a, b) = choose|a: int, b: int|
                        0 <= a < b < es.len() && entry_key(#[trigger] es[a]) == k && entry_key(
                            #[trigger] es[b],
                        ) == k;
                    assert(ks[a] == k && ks[b] == k);
                }
            }
            assert forall|k: LineKey| voiced_once(self.entries_spec(), k) implies exists|t: int|
                0 <= t < r@.len() && (#[trigger] r@[t]).0 == k by {
                let i = choose|i: int| 0 <= i < es.len() && entry_key(#[trigger] es[i]) == k;
                assert(ks[i] == k);
                lemma_indices_at(self.line_id_map, ks, n, i);
                lemma_duplicate_iff(ks, k);
                lemma_indices_with(ks, k, n);
                let idx = indices_with(ks, k, n);
                assert(idx.contains(i as usize));
                if idx.len() > 1 {
                    let (a, b) = choose|a: int, b: int| 0 <= a < b < ks.len() && ks[a] == k && ks[b] == k;
                    assert(entry_key(es[a]) == k && entry_key(es[b]) == k);
                }
                let mk = self.line_id_map@[k];
                assert(s.contains((&k, &mk)));
                let j = choose|j: int| 0 <= j < s.len() && s[j] == (&k, &mk);
                assert(*s[j].0 == k && s[j].1@.len() == 1);
                assert(single.contains(k));
                let t = choose|t: int| 0 <= t < single.len() && single[t] == k;
                assert(r@[t].0 == k);
            }
        }
        r
    }
}

/// The lines that are keys of `m`, in the order of lines.
pub fn line_keys_of<V>(m: &BTreeMap<LineKey, V>) -> (r: Vec<LineKey>)
    ensures
        forall|k: LineKey| #[trigger] r@.contains(k) <==> m@.contains_key(k),
        forall|i: int, j: int| 0 <= i < j < r@.len() ==> line_key_lt(r@[i], r@[j]),
{
    proof {
        lemma_line_keys_ordered();
    }
    let ghost s = vstd::std_specs::btree::spec_btree_map_iter(m).remaining();
    let mut r: Vec<LineKey> = Vec::new();
    for (k, v) in it: m.iter()
        invariant
            it.seq() == s,
            r@.len() == it.index(),
            forall|j: int| 0 <= j < r@.len() ==> #[trigger] r@[j] == *s[j].0,
    {
        r.push(*k);
    }
    proof {
        lemma_line_keys_increase(s);
        assert forall|k: LineKey| #[trigger] r@.contains(k) implies m@.contains_key(k) by {
            let i = choose|i: int| 0 <= i < r@.len() && r@[i] == k;
            assert(r@[i] == *s[i].0);
        }
        assert forall|k: LineKey| #[trigger] m@.contains_key(k) implies r@.contains(k) by {
            assert(s.contains((&k, &m@[k])));
            let j = choose|j: int| 0 <= j < s.len() && s[j] == (&k, &m@[k]);
            assert(r@[j] == *s[j].0);
        }
    }
    r
}

} // verus!
