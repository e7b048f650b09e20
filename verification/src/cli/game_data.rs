//! Checking a game's files against a manifest, and choosing the files to
//! import.
//!
//! The caller walks the directory and hashes the files; this module sorts
//! the files it finds.
use vstd::prelude::*;

use crate::strings::str_eq;

verus! {

/// The paths as characters.
pub open spec fn paths_view(ps: Seq<String>) -> Seq<Seq<char>> {
    Seq::new(ps.len(), |i: int| ps[i]@)
}

/// The files of a directory sorted against a manifest: those that match
/// it, those that differ, those it lists that were not found, and those
/// found that it does not list.
pub struct ValidationResult {
    pub matches: Vec<String>,
    pub mismatches: Vec<String>,
    pub missing: Vec<String>,
    pub additional: Vec<String>,
}

/// A directory that does not hold the manifest's files unchanged.
pub struct IncompleteFiles {
    pub missing: Vec<String>,
    pub mismatches: Vec<String>,
}

impl ValidationResult {
    /// Checks that the directory holds all of the manifest's files,
    /// unchanged: no file missing, none differing.
    pub fn validate_complete(&self) -> (r: Result<(), IncompleteFiles>)
        ensures
            r is Ok <==> self.mismatches@.len() == 0 && self.missing@.len() == 0,
            r matches Err(e) ==> paths_view(e.missing@) == paths_view(self.missing@) && paths_view(
                e.mismatches@,
            ) == paths_view(self.mismatches@),
    {
        if self.mismatches.len() != 0 || self.missing.len() != 0 {
            let missing = clone_paths(&self.missing);
            let mismatches = clone_paths(&self.mismatches);
            return Err(IncompleteFiles { missing, mismatches });
        }
        Ok(())
    }

    /// The files found that the manifest does not list.
    pub fn additional_files(&self) -> (ps: &Vec<String>)
        ensures
            ps@ == self.additional@,
    {
        &self.additional
    }
}

/// A copy of a list of paths.
fn clone_paths(ps: &Vec<String>) -> (r: Vec<String>)
    ensures
        paths_view(r@) == paths_view(ps@),
{
    let mut r: Vec<String> = Vec::new();
    let mut i: usize = 0;
    while i < ps.len()
        invariant
            i <= ps@.len(),
            paths_view(r@) == paths_view(ps@).take(i as int),
        decreases ps@.len() - i,
    {
        let ghost prev = paths_view(r@);
        let p = ps[i].clone();
        assert(p@ == ps@[i as int]@);
        r.push(p);
        assert(paths_view(r@) =~= prev.push(ps@[i as int]@));
        i = i + 1;
        assert(paths_view(r@) =~= paths_view(ps@).take(i as int));
    }
    assert(paths_view(ps@).take(ps@.len() as int) =~= paths_view(ps@));
    r
}

/// A check of a directory's files against a manifest, under way: the
/// manifest's files not found yet, and the files sorted so far.
pub struct ManifestCheck {
    remaining: Vec<String>,
    result: ValidationResult,
}

impl ManifestCheck {
    /// The manifest's files not found yet.
    pub closed spec fn remaining_spec(&self) -> Seq<Seq<char>> {
        paths_view(self.remaining@)
    }

    /// The files sorted so far: matching, differing, not listed.
    pub closed spec fn sorted_spec(&self) -> (Seq<Seq<char>>, Seq<Seq<char>>, Seq<Seq<char>>) {
        (
            paths_view(self.result.matches@),
            paths_view(self.result.mismatches@),
            paths_view(self.result.additional@),
        )
    }

    /// A check of the files that the manifest lists.
    pub fn new(manifest_files: Vec<String>) -> (c: Self)
        ensures
            c.remaining_spec() == paths_view(manifest_files@),
            c.sorted_spec() == (
                Seq::<Seq<char>>::empty(),
                Seq::<Seq<char>>::empty(),
                Seq::<Seq<char>>::empty(),
            ),
    {
        let c = ManifestCheck {
            remaining: manifest_files,
            result: ValidationResult {
                matches: Vec::new(),
                mismatches: Vec::new(),
                missing: Vec::new(),
                additional: Vec::new(),
            },
        };
        assert(c.sorted_spec().0 =~= Seq::<Seq<char>>::empty());
        assert(c.sorted_spec().1 =~= Seq::<Seq<char>>::empty());
        assert(c.sorted_spec().2 =~= Seq::<Seq<char>>::empty());
        c
    }

    /// Takes a file found in the directory. When the manifest lists it and
    /// it was not found before, it is taken off the files not found, and
    /// `true` says that its contents must be checked (and the outcome
    /// recorded); otherwise it is added to the files not listed.
    pub fn take(&mut self, path: String) -> (listed: bool)
        ensures
            listed == old(self).remaining_spec().contains(path@),
            listed ==> exists|i: int|
                0 <= i < old(self).remaining_spec().len() && old(self).remaining_spec()[i]
                    == path@ && final(self).remaining_spec() == old(self).remaining_spec().remove(
                    i,
                ),
            listed ==> final(self).sorted_spec() == old(self).sorted_spec(),
            !listed ==> final(self).remaining_spec() == old(self).remaining_spec(),
            !listed ==> final(self).sorted_spec() == (
                old(self).sorted_spec().0,
                old(self).sorted_spec().1,
                old(self).sorted_spec().2.push(path@),
            ),
    {
        let ghost rem = paths_view(self.remaining@);
        let mut i: usize = 0;
        while i < self.remaining.len()
            invariant
                i <= self.remaining@.len(),
                rem == paths_view(self.remaining@),
                rem == old(self).remaining_spec(),
                self.sorted_spec() == old(self).sorted_spec(),
                forall|j: int| 0 <= j < i ==> rem[j] != path@,
            decreases self.remaining@.len() - i,
        {
            if str_eq(self.remaining[i].as_str(), path.as_str()) {
                assert(rem[i as int] == path@);
                self.remaining.remove(i);
                assert(paths_view(self.remaining@) =~= rem.remove(i as int));
                return true;
            }
            i = i + 1;
        }
        let ghost before = self.sorted_spec();
        self.result.additional.push(path);
        proof {
            assert(self.sorted_spec().0 == before.0);
            assert(self.sorted_spec().1 == before.1);
            assert(self.sorted_spec().2 =~= before.2.push(path@));
            assert(!rem.contains(path@));
        }
        false
    }

    /// Records whether a listed file's contents match the manifest.
    pub fn record(&mut self, path: String, file_matches: bool)
        ensures
            final(self).remaining_spec() == old(self).remaining_spec(),
            final(self).sorted_spec() == if file_matches {
                (
                    old(self).sorted_spec().0.push(path@),
                    old(self).sorted_spec().1,
                    old(self).sorted_spec().2,
                )
            } else {
                (
                    old(self).sorted_spec().0,
                    old(self).sorted_spec().1.push(path@),
                    old(self).sorted_spec().2,
                )
            },
    {
        let ghost before = self.sorted_spec();
        if file_matches {
            self.result.matches.push(path);
            assert(self.sorted_spec().0 =~= before.0.push(path@));
        } else {
            self.result.mismatches.push(path);
            assert(self.sorted_spec().1 =~= before.1.push(path@));
        }
    }

    /// The result: the files sorted, and the manifest's files never found
    /// as missing.
    pub fn finish(self) -> (r: ValidationResult)
        ensures
            paths_view(r.matches@) == self.sorted_spec().0,
            paths_view(r.mismatches@) == self.sorted_spec().1,
            paths_view(r.additional@) == self.sorted_spec().2,
            paths_view(r.missing@) == self.remaining_spec(),
    {
        let ManifestCheck { remaining, result } = self;
        ValidationResult {
            matches: result.matches,
            mismatches: result.mismatches,
            missing: remaining,
            additional: result.additional,
        }
    }
}

/// The paths of the walked files.
pub open spec fn walked_paths(w: Seq<(String, bool)>) -> Seq<Seq<char>> {
    Seq::new(w.len(), |i: int| w[i].0@)
}

/// Whether no path occurs twice.
pub open spec fn distinct_paths(ps: Seq<Seq<char>>) -> bool {
    forall|i: int, j: int| 0 <= i < j < ps.len() ==> ps[i] != ps[j]
}

/// Whether `p` is walked, among the first `n` walked files, with contents
/// that match the manifest's exactly when `same`.
pub open spec fn walked_with(w: Seq<(String, bool)>, n: int, p: Seq<char>, same: bool) -> bool {
    exists|j: int| 0 <= j < n && w[j].0@ == p && w[j].1 == same
}

/// A path is in a list with one more path when it was there already or is
/// the new one.
proof fn lemma_push_contains(s: Seq<Seq<char>>, x: Seq<char>)
    ensures
        forall|p: Seq<char>| #[trigger] s.push(x).contains(p) <==> s.contains(p) || p == x,
{
    assert forall|p: Seq<char>| #[trigger] s.push(x).contains(p) <==> s.contains(p) || p == x by {
        if s.push(x).contains(p) {
            let j = choose|j: int| 0 <= j < s.push(x).len() && s.push(x)[j] == p;
            if j < s.len() {
                assert(s[j] == p);
            }
        }
        if s.contains(p) {
            let j = choose|j: int| 0 <= j < s.len() && s[j] == p;
            assert(s.push(x)[j] == p);
        }
        if p == x {
            assert(s.push(x)[s.len() as int] == p);
        }
    }
}

/// Checks a whole walk of a directory against the manifest's files: each
/// walked file, in turn, is taken off the manifest's files when listed and
/// recorded with whether its contents match (the flag beside it, read for
/// listed files only), or else counted as not listed. Of distinct manifest
/// files and distinct walked files, the result lists as matching and as
/// differing exactly the walked files of the manifest whose contents match
/// or differ, as missing the manifest's files not walked, and as
/// additional the walked files that the manifest does not list.
pub fn check_walk(manifest_files: Vec<String>, walked: Vec<(String, bool)>) -> (r: ValidationResult)
    requires
        distinct_paths(paths_view(manifest_files@)),
        distinct_paths(walked_paths(walked@)),
    ensures
        forall|p: Seq<char>| #[trigger]
            paths_view(r.matches@).contains(p) <==> paths_view(manifest_files@).contains(p)
                && walked_with(walked@, walked@.len() as int, p, true),
        forall|p: Seq<char>| #[trigger]
            paths_view(r.mismatches@).contains(p) <==> paths_view(manifest_files@).contains(p)
                && walked_with(walked@, walked@.len() as int, p, false),
        forall|p: Seq<char>| #[trigger]
            paths_view(r.missing@).contains(p) <==> paths_view(manifest_files@).contains(p)
                && !walked_paths(walked@).contains(p),
        forall|p: Seq<char>| #[trigger]
            paths_view(r.additional@).contains(p) <==> walked_paths(walked@).contains(p)
                && !paths_view(manifest_files@).contains(p),
{
    let ghost man = paths_view(manifest_files@);
    let ghost w = walked@;
    let ghost wp = walked_paths(w);
    let mut c = ManifestCheck::new(manifest_files);
    let mut k: usize = 0;
    while k < walked.len()
        invariant
            k <= w.len(),
            w == walked@,
            wp == walked_paths(w),
            distinct_paths(wp),
            distinct_paths(c.remaining_spec()),
            forall|p: Seq<char>| #[trigger]
                c.remaining_spec().contains(p) <==> man.contains(p) && !wp.take(k as int).contains(p),
            forall|p: Seq<char>| #[trigger]
                c.sorted_spec().0.contains(p) <==> man.contains(p) && walked_with(w, k as int, p, true),
            forall|p: Seq<char>| #[trigger]
                c.sorted_spec().1.contains(p) <==> man.contains(p) && walked_with(w, k as int, p, false),
            forall|p: Seq<char>| #[trigger]
                c.sorted_spec().2.contains(p) <==> wp.take(k as int).contains(p) && !man.contains(p),
        decreases w.len() - k,
    {
        let path = walked[k].0.clone();
        let same = walked[k].1;
        let ghost q = w[k as int].0@;
        assert(path@ == q);
        let ghost rem = c.remaining_spec();
        let ghost before = c.sorted_spec();
        proof {
            assert(wp[k as int] == q);
            assert(wp.take(k + 1) =~= wp.take(k as int).push(q));
            assert(!wp.take(k as int).contains(q)) by {
                if wp.take(k as int).contains(q) {
                    let j = choose|j: int| 0 <= j < k && wp.take(k as int)[j] == q;
                    assert(wp[j] == wp[k as int]);
                }
            }
        }
        let listed = c.take(path);
        if listed {
            let p2 = walked[k].0.clone();
            c.record(p2, same);
            proof {
                lemma_push_contains(before.0, q);
                lemma_push_contains(before.1, q);
                lemma_push_contains(wp.take(k as int), q);
                let i = choose|i: int| 0 <= i < rem.len() && rem[i] == q && c.remaining_spec() == rem.remove(i);
                let nr = c.remaining_spec();
                assert forall|p: Seq<char>| #[trigger] nr.contains(p) <==> rem.contains(p) && p != q by {
                    if nr.contains(p) {
                        let j = choose|j: int| 0 <= j < nr.len() && nr[j] == p;
                        if j < i {
                            assert(nr[j] == rem[j]);
                            assert(rem.contains(p));
                            assert(rem[j] != rem[i]);
                        } else {
                            assert(nr[j] == rem[j + 1]);
                            assert(rem.contains(p));
                            assert(rem[j + 1] != rem[i]);
                        }
                    }
                    if rem.contains(p) && p != q {
                        let j = choose|j: int| 0 <= j < rem.len() && rem[j] == p;
                        if j < i {
                            assert(nr[j] == p);
                        } else {
                            assert(j != i);
                            assert(nr[j - 1] == p);
                        }
                    }
                }
                assert forall|a: int, b: int| 0 <= a < b < nr.len() implies nr[a] != nr[b] by {
                    let a2 = if a < i { a } else { a + 1 };
                    let b2 = if b < i { b } else { b + 1 };
                    assert(nr[a] == rem[a2]);
                    assert(nr[b] == rem[b2]);
                }
                assert(man.contains(q));
                assert forall|p: Seq<char>| #[trigger] c.sorted_spec().0.contains(p) <==> man.contains(p)
                    && walked_with(w, k + 1, p, true) by {
                    if walked_with(w, k + 1, p, true) && !walked_with(w, k as int, p, true) {
                        let j = choose|j: int| 0 <= j < k + 1 && w[j].0@ == p && w[j].1 == true;
                        assert(j == k);
                    }
                    if walked_with(w, k as int, p, true) {
                        let j = choose|j: int| 0 <= j < k && w[j].0@ == p && w[j].1 == true;
                        assert(walked_with(w, k + 1, p, true));
                    }
                    if same && p == q {
                        assert(walked_with(w, k + 1, p, true));
                    }
                    if !same && p == q && walked_with(w, k + 1, p, true) {
                        let j = choose|j: int| 0 <= j < k + 1 && w[j].0@ == p && w[j].1 == true;
                        assert(wp[j] == wp[k as int]);
                    }
                }
                assert forall|p: Seq<char>| #[trigger] c.sorted_spec().1.contains(p) <==> man.contains(p)
                    && walked_with(w, k + 1, p, false) by {
                    if walked_with(w, k + 1, p, false) && !walked_with(w, k as int, p, false) {
                        let j = choose|j: int| 0 <= j < k + 1 && w[j].0@ == p && w[j].1 == false;
                        assert(j == k);
                    }
                    if walked_with(w, k as int, p, false) {
                        let j = choose|j: int| 0 <= j < k && w[j].0@ == p && w[j].1 == false;
                        assert(walked_with(w, k + 1, p, false));
                    }
                    if !same && p == q {
                        assert(walked_with(w, k + 1, p, false));
                    }
                    if same && p == q && walked_with(w, k + 1, p, false) {
                        let j = choose|j: int| 0 <= j < k + 1 && w[j].0@ == p && w[j].1 == false;
                        assert(wp[j] == wp[k as int]);
                    }
                }
            }
        } else {
            proof {
                lemma_push_contains(before.2, q);
                lemma_push_contains(wp.take(k as int), q);
                assert(!man.contains(q));
                assert forall|p: Seq<char>| #[trigger] c.sorted_spec().0.contains(p) <==> man.contains(p)
                    && walked_with(w, k + 1, p, true) by {
                    if walked_with(w, k + 1, p, true) && !walked_with(w, k as int, p, true) {
                        let j = choose|j: int| 0 <= j < k + 1 && w[j].0@ == p && w[j].1 == true;
                        assert(j == k);
                    }
                    if walked_with(w, k as int, p, true) {
                        let j = choose|j: int| 0 <= j < k && w[j].0@ == p && w[j].1 == true;
                        assert(walked_with(w, k + 1, p, true));
                    }
                }
                assert forall|p: Seq<char>| #[trigger] c.sorted_spec().1.contains(p) <==> man.contains(p)
                    && walked_with(w, k + 1, p, false) by {
                    if walked_with(w, k + 1, p, false) && !walked_with(w, k as int, p, false) {
                        let j = choose|j: int| 0 <= j < k + 1 && w[j].0@ == p && w[j].1 == false;
                        assert(j == k);
                    }
                    if walked_with(w, k as int, p, false) {
                        let j = choose|j: int| 0 <= j < k && w[j].0@ == p && w[j].1 == false;
                        assert(walked_with(w, k + 1, p, false));
                    }
                }
                assert forall|p: Seq<char>| #[trigger] c.sorted_spec().2.contains(p) <==> wp.take(
                    k + 1,
                ).contains(p) && !man.contains(p) by {
                    if c.sorted_spec().2.contains(p) && p != q {
                        let j = choose|j: int| 0 <= j < c.sorted_spec().2.len() && c.sorted_spec().2[j] == p;
                        assert(j < before.2.len());
                        assert(before.2[j] == p);
                        assert(before.2.contains(p));
                    }
                    if p == q {
                        assert(c.sorted_spec().2[before.2.len() as int] == q);
                    }
                    if before.2.contains(p) {
                        let j = choose|j: int| 0 <= j < before.2.len() && before.2[j] == p;
                        assert(c.sorted_spec().2[j] == p);
                    }
                    if wp.take(k + 1).contains(p) && p != q {
                        let t = wp.take(k + 1);
                        let j = choose|j: int| 0 <= j < t.len() && t[j] == p;
                        assert(j < k);
                        assert(wp.take(k as int)[j] == p);
                    }
                }
            }
        }
        k = k + 1;
    }
    proof {
        assert(wp.take(w.len() as int) =~= wp);
        assert forall|p: Seq<char>| #[trigger] wp.contains(p) <==> exists|j: int| 0 <= j < w.len() && w[j].0@ == p by {
            if wp.contains(p) {
                let j = choose|j: int| 0 <= j < wp.len() && wp[j] == p;
            }
            if exists|j: int| 0 <= j < w.len() && w[j].0@ == p {
                let j = choose|j: int| 0 <= j < w.len() && w[j].0@ == p;
                assert(wp[j] == p);
            }
        }
    }
    c.finish()
}

/// Why an import cannot go on.
pub enum ImportError {
    /// The project's game directory already has files.
    GameDirNotEmpty,
    /// Files of the manifest are missing from the source.
    MissingFiles(Vec<String>),
    /// Files of the source differ from the manifest.
    MismatchedFiles(Vec<String>),
}

/// The files to copy into an empty game directory: with a manifest, the
/// source's files that match it, provided none is missing and none
/// differs; without one, every file of the source.
pub fn files_to_import(
    game_dir_is_empty: bool,
    checked: Option<ValidationResult>,
    source_files: Vec<String>,
) -> (r: Result<Vec<String>, ImportError>)
    ensures
        !game_dir_is_empty ==> r is Err && r->Err_0 is GameDirNotEmpty,
        game_dir_is_empty ==> match checked {
            None => r matches Ok(fs) && fs@ == source_files@,
            Some(v) => if v.missing@.len() != 0 {
                r matches Err(ImportError::MissingFiles(ms)) && ms@ == v.missing@
            } else if v.mismatches@.len() != 0 {
                r matches Err(ImportError::MismatchedFiles(ms)) && ms@ == v.mismatches@
            } else {
                r matches Ok(fs) && fs@ == v.matches@
            },
        },
{
    if !game_dir_is_empty {
        return Err(ImportError::GameDirNotEmpty);
    }
    match checked {
        None => Ok(source_files),
        Some(v) => {
            if v.missing.len() != 0 {
                Err(ImportError::MissingFiles(v.missing))
            } else if v.mismatches.len() != 0 {
                Err(ImportError::MismatchedFiles(v.mismatches))
            } else {
                Ok(v.matches)
            }
        },
    }
}

} // verus!
