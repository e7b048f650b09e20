//! An ordered multimap whose keys are derived from its items by a fetcher
//! that the caller passes to each operation.
//!
//! The items (ids of entries of a map's storage) are kept in an `im`
//! vector, sorted by key and then by item, so that the items of a key form
//! one run that two binary searches find.
use std::cmp::Ordering;

use im::Vector;
use vstd::prelude::*;

verus! {

#[verifier::external_type_specification]
#[verifier::external_body]
#[verifier::reject_recursive_types(A)]
pub struct ExVector<A>(Vector<A>);

/// The items of a vector of ids, in order.
pub uninterp spec fn vector_items(v: Vector<usize>) -> Seq<usize>;

/// The item at place `i` of `s`.
pub open spec fn item_at(s: Seq<usize>, i: usize) -> usize {
    s[i as int]
}

/// `Vector::new`: a vector with no item.
#[verifier::external_body]
fn vector_new() -> (v: Vector<usize>)
    ensures
        vector_items(v) == Seq::<usize>::empty(),
{
    Vector::new()
}

/// `Vector::get`: the item at `index`, if there is one.
#[verifier::external_body]
fn vector_get(v: &Vector<usize>, index: usize) -> (r: Option<usize>)
    ensures
        r == (if index < vector_items(*v).len() {
            Some(vector_items(*v)[index as int])
        } else {
            None
        }),
{
    v.get(index).copied()
}

/// `Vector::insert`: puts `value` at `index`, shifting the items from
/// there one place on. It panics past the end, so `index` is at most the
/// length.
#[verifier::external_body]
fn vector_insert(v: &mut Vector<usize>, index: usize, value: usize)
    requires
        index <= vector_items(*old(v)).len(),
    ensures
        vector_items(*final(v)) == vector_items(*old(v)).insert(index as int, value),
{
    v.insert(index, value)
}

/// `Vector::remove`: takes out the item at `index`, shifting the items
/// after it one place back. It panics past the end, so `index` is below
/// the length.
#[verifier::external_body]
fn vector_remove(v: &mut Vector<usize>, index: usize) -> (r: usize)
    requires
        index < vector_items(*old(v)).len(),
    ensures
        r == vector_items(*old(v))[index as int],
        vector_items(*final(v)) == vector_items(*old(v)).remove(index as int),
{
    v.remove(index)
}

/// `Vector::binary_search_by`, probing each item against `target`. Where
/// the probes of the items never decrease along the vector (all `Less`,
/// then all `Equal`, then all `Greater`), it returns `Ok` with the place of
/// an item that probes `Equal`, or else `Err` with the place where the
/// `Less` items end and the `Greater` ones begin.
#[verifier::external_body]
fn vector_search<F: LendingKeyFetcher>(v: &Vector<usize>, fetcher: &F, target: &Probe) -> (r: Result<
    usize,
    usize,
>)
    requires
        probes_increase(fetcher, vector_items(*v), *target),
    ensures
        match r {
            Ok(i) => i < vector_items(*v).len() && probe_rank(
                fetcher,
                item_at(vector_items(*v), i),
                *target,
            ) == 1,
            Err(i) => i <= vector_items(*v).len() && (forall|j: int|
                0 <= j < i ==> probe_rank(fetcher, #[trigger] vector_items(*v)[j], *target) == 0)
                && (forall|j: int|
                i <= j < vector_items(*v).len() ==> probe_rank(
                    fetcher,
                    #[trigger] vector_items(*v)[j],
                    *target,
                ) == 2),
        },
{
    v.binary_search_by(|x| probe(fetcher, x, target))
}

/// A way of fetching the key of an item. For a multimap to stay sorted,
/// the same fetcher must be passed to each of its operations.
pub trait LendingKeyFetcher {
    /// The key of `value`.
    spec fn key_of(&self, value: usize) -> u64;

    /// The key of `value`.
    fn fetch(&self, value: &usize) -> (k: u64)
        ensures
            k == self.key_of(*value),
    ;
}

/// The fetcher whose key of an item is the item itself.
pub struct IdentityFetcher;

impl LendingKeyFetcher for IdentityFetcher {
    open spec fn key_of(&self, value: usize) -> u64 {
        value as u64
    }

    fn fetch(&self, value: &usize) -> (k: u64) {
        *value as u64
    }
}

/// The fetcher that gives every item the same key.
pub struct ConstFetcher(pub u64);

impl LendingKeyFetcher for ConstFetcher {
    open spec fn key_of(&self, value: usize) -> u64 {
        self.0
    }

    fn fetch(&self, value: &usize) -> (k: u64) {
        self.0
    }
}

/// Whether item `a` comes before `b`: by key, then by item.
pub open spec fn entry_lt<F: LendingKeyFetcher>(f: &F, a: usize, b: usize) -> bool {
    f.key_of(a) < f.key_of(b) || (f.key_of(a) == f.key_of(b) && a < b)
}

/// Whether the items `s` are in strictly increasing order of key, then
/// item.
pub open spec fn sorted_by<F: LendingKeyFetcher>(f: &F, s: Seq<usize>) -> bool {
    forall|i: int, j: int| 0 <= i < j < s.len() ==> entry_lt(f, #[trigger] s[i], #[trigger] s[j])
}

/// What a binary search looks for: an item, the first item of a key, or
/// the first item past a key.
#[derive(Clone, Copy)]
pub enum Probe {
    Item(usize),
    LowerBound(u64),
    UpperBound(u64),
}

/// How `entry` compares with `target`: 0 before it, 1 equal, 2 after.
/// Bounds never compare equal: an entry of the key is after the lower
/// bound and before the upper bound.
pub open spec fn probe_rank<F: LendingKeyFetcher>(f: &F, entry: usize, target: Probe) -> int {
    match target {
        Probe::Item(v) => if entry_lt(f, entry, v) {
            0
        } else if entry == v {
            1
        } else {
            2
        },
        Probe::LowerBound(k) => if f.key_of(entry) < k {
            0
        } else {
            2
        },
        Probe::UpperBound(k) => if f.key_of(entry) <= k {
            0
        } else {
            2
        },
    }
}

/// Whether the probes of the items `s` never decrease.
pub open spec fn probes_increase<F: LendingKeyFetcher>(f: &F, s: Seq<usize>, target: Probe) -> bool {
    forall|i: int, j: int|
        0 <= i < j < s.len() ==> probe_rank(f, #[trigger] s[i], target) <= probe_rank(
            f,
            #[trigger] s[j],
            target,
        )
}

/// The order of `a` and `b`: by key, then by item.
fn total_ord<F: LendingKeyFetcher>(fetcher: &F, a: &usize, b: &usize) -> (o: Ordering)
    ensures
        (o == Ordering::Less) == entry_lt(fetcher, *a, *b),
        (o == Ordering::Equal) == (*a == *b),
        (o == Ordering::Greater) == entry_lt(fetcher, *b, *a),
{
    let a_key = fetcher.fetch(a);
    let b_key = fetcher.fetch(b);
    if a_key < b_key {
        Ordering::Less
    } else if a_key > b_key {
        Ordering::Greater
    } else if *a < *b {
        Ordering::Less
    } else if *a > *b {
        Ordering::Greater
    } else {
        Ordering::Equal
    }
}

/// The order of `entry`'s key and `key`, with an equal key put after.
fn lower_bound_searcher<F: LendingKeyFetcher>(fetcher: &F, key: u64, entry: &usize) -> (o: Ordering)
    ensures
        o == (if fetcher.key_of(*entry) < key {
            Ordering::Less
        } else {
            Ordering::Greater
        }),
{
    let entry_key = fetcher.fetch(entry);
    if entry_key < key {
        Ordering::Less
    } else {
        Ordering::Greater
    }
}

/// The order of `entry`'s key and `key`, with an equal key put before.
fn upper_bound_searcher<F: LendingKeyFetcher>(fetcher: &F, key: u64, entry: &usize) -> (o: Ordering)
    ensures
        o == (if fetcher.key_of(*entry) <= key {
            Ordering::Less
        } else {
            Ordering::Greater
        }),
{
    let entry_key = fetcher.fetch(entry);
    if entry_key <= key {
        Ordering::Less
    } else {
        Ordering::Greater
    }
}

/// How `entry` compares with `target`.
fn probe<F: LendingKeyFetcher>(fetcher: &F, entry: &usize, target: &Probe) -> (o: Ordering)
    ensures
        (o == Ordering::Less) == (probe_rank(fetcher, *entry, *target) == 0),
        (o == Ordering::Equal) == (probe_rank(fetcher, *entry, *target) == 1),
        (o == Ordering::Greater) == (probe_rank(fetcher, *entry, *target) == 2),
{
    match target {
        Probe::Item(v) => total_ord(fetcher, entry, v),
        Probe::LowerBound(k) => lower_bound_searcher(fetcher, *k, entry),
        Probe::UpperBound(k) => upper_bound_searcher(fetcher, *k, entry),
    }
}

/// Items sorted by key, then item, probe in increasing order.
proof fn lemma_sorted_probes<F: LendingKeyFetcher>(f: &F, s: Seq<usize>, target: Probe)
    requires
        sorted_by(f, s),
    ensures
        probes_increase(f, s, target),
{
    assert forall|i: int, j: int| 0 <= i < j < s.len() implies probe_rank(
        f,
        #[trigger] s[i],
        target,
    ) <= probe_rank(f, #[trigger] s[j], target) by {
        assert(entry_lt(f, s[i], s[j]));
    }
}

/// Items sorted by key and then by item are determined by which items they
/// are: two such sequences of the same items are the same.
pub proof fn lemma_sorted_unique<F: LendingKeyFetcher>(f: &F, a: Seq<usize>, b: Seq<usize>)
    requires
        sorted_by(f, a),
        sorted_by(f, b),
        a.to_set() == b.to_set(),
    ensures
        a == b,
    decreases a.len(),
{
    if a.len() == 0 {
        if b.len() > 0 {
            assert(b.to_set().contains(b[0]));
        }
        assert(b.len() == 0);
    } else if b.len() == 0 {
        assert(a.to_set().contains(a[0]));
    } else {
        // Both begin with their least item, which is the same.
        assert(a.to_set().contains(a[0]) && b.to_set().contains(b[0]));
        let i = choose|i: int| 0 <= i < b.len() && b[i] == a[0];
        let j = choose|j: int| 0 <= j < a.len() && a[j] == b[0];
        if i > 0 && j > 0 {
            assert(entry_lt(f, b[0], b[i]));
            assert(entry_lt(f, a[0], a[j]));
        }
        assert(a[0] == b[0]);
        let a1 = a.drop_first();
        let b1 = b.drop_first();
        assert forall|i: int, j: int| 0 <= i < j < a1.len() implies entry_lt(
            f,
            #[trigger] a1[i],
            #[trigger] a1[j],
        ) by {
            assert(entry_lt(f, a[i + 1], a[j + 1]));
        }
        assert forall|i: int, j: int| 0 <= i < j < b1.len() implies entry_lt(
            f,
            #[trigger] b1[i],
            #[trigger] b1[j],
        ) by {
            assert(entry_lt(f, b[i + 1], b[j + 1]));
        }
        assert forall|x: usize| #[trigger] a1.to_set().contains(x) == b1.to_set().contains(x) by {
            if a1.contains(x) {
                let k = choose|k: int| 0 <= k < a1.len() && a1[k] == x;
                assert(a[k + 1] == x);
                assert(entry_lt(f, a[0], a[k + 1]));
                assert(b.to_set().contains(x));
                let m = choose|m: int| 0 <= m < b.len() && b[m] == x;
                assert(m != 0);
                assert(b1[m - 1] == x);
            }
            if b1.contains(x) {
                let k = choose|k: int| 0 <= k < b1.len() && b1[k] == x;
                assert(b[k + 1] == x);
                assert(entry_lt(f, b[0], b[k + 1]));
                assert(a.to_set().contains(x));
                let m = choose|m: int| 0 <= m < a.len() && a[m] == x;
                assert(m != 0);
                assert(a1[m - 1] == x);
            }
        }
        assert(a1.to_set() =~= b1.to_set());
        lemma_sorted_unique(f, a1, b1);
        assert(a =~= seq![a[0]] + a1);
        assert(b =~= seq![b[0]] + b1);
    }
}

/// Taking out an item that was put in, when it was not there before, gives
/// back the items there were: what `insert` ensures, followed by what
/// `remove` ensures, leaves the map as it was.
pub proof fn lemma_remove_undoes_insert<F: LendingKeyFetcher>(
    f: &F,
    before: Seq<usize>,
    inserted: Seq<usize>,
    removed: Seq<usize>,
    value: usize,
)
    requires
        sorted_by(f, before),
        !before.contains(value),
        sorted_by(f, inserted),
        inserted.to_set() == before.to_set().insert(value),
        sorted_by(f, removed),
        removed.to_set() == inserted.to_set().remove(value),
    ensures
        removed == before,
{
    assert(before.to_set().insert(value).remove(value) =~= before.to_set());
    lemma_sorted_unique(f, removed, before);
}

/// A map of keys to items, where the key of an item comes from a fetcher:
/// its items, sorted by key and then by item, with no item twice.
pub struct FnMultiMap {
    contents: Vector<usize>,
}

impl FnMultiMap {
    /// The items, in order.
    pub closed spec fn items(&self) -> Seq<usize> {
        vector_items(self.contents)
    }

    /// A map with no item.
    pub fn new() -> (m: Self)
        ensures
            m.items() == Seq::<usize>::empty(),
    {
        FnMultiMap { contents: vector_new() }
    }

    /// Adds `value`, where its key and the item order put it (nothing
    /// changes if it is there already); gives back the item.
    pub fn insert<F: LendingKeyFetcher>(&mut self, fetcher: &F, value: usize) -> (r: usize)
        requires
            sorted_by(fetcher, old(self).items()),
        ensures
            r == value,
            sorted_by(fetcher, final(self).items()),
            final(self).items().to_set() == old(self).items().to_set().insert(value),
            old(self).items().contains(value) ==> final(self).items() == old(self).items(),
    {
        proof {
            lemma_sorted_probes(fetcher, self.items(), Probe::Item(value));
        }
        let ghost before = self.items();
        let index = match vector_search(&self.contents, fetcher, &Probe::Item(value)) {
            Ok(index) => index,
            Err(index) => {
                vector_insert(&mut self.contents, index, value);
                proof {
                    let after = self.items();
                    assert(after == before.insert(index as int, value));
                    assert forall|i: int, j: int| 0 <= i < j < after.len() implies entry_lt(
                        fetcher,
                        #[trigger] after[i],
                        #[trigger] after[j],
                    ) by {
                        if j < index {
                        } else if j == index {
                            assert(probe_rank(fetcher, before[i], Probe::Item(value)) == 0);
                        } else if i < index {
                            assert(before[j - 1] == after[j]);
                            assert(probe_rank(fetcher, before[i], Probe::Item(value)) == 0);
                            assert(probe_rank(fetcher, before[j - 1], Probe::Item(value)) == 2);
                        } else if i == index {
                            assert(probe_rank(fetcher, before[j - 1], Probe::Item(value)) == 2);
                        } else {
                            assert(entry_lt(fetcher, before[i - 1], before[j - 1]));
                        }
                    }
                    assert forall|y: usize| #[trigger] after.to_set().contains(y)
                        == before.to_set().insert(value).contains(y) by {
                        if after.contains(y) {
                            let a = choose|a: int| 0 <= a < after.len() && after[a] == y;
                            if a < index {
                                assert(before[a] == y);
                            } else if a > index {
                                assert(before[a - 1] == y);
                            }
                        }
                        if before.contains(y) {
                            let b = choose|b: int| 0 <= b < before.len() && before[b] == y;
                            if b < index {
                                assert(after[b] == y);
                            } else {
                                assert(after[b + 1] == y);
                            }
                        }
                        if y == value {
                            assert(after[index as int] == value);
                        }
                    }
                    assert(after.to_set() =~= before.to_set().insert(value));
                    if before.contains(value) {
                        let k = choose|k: int| 0 <= k < before.len() && before[k] == value;
                        assert(probe_rank(fetcher, before[k], Probe::Item(value)) == 1);
                    }
                }
                index
            },
        };
        proof {
            assert(self.items()[index as int] == value);
            assert(self.items().to_set() =~= before.to_set().insert(value));
        }
        match vector_get(&self.contents, index) {
            Some(item) => item,
            None => value,
        }
    }

    /// The items of the key `key`, in order.
    pub fn get<F: LendingKeyFetcher>(&self, fetcher: &F, key: u64) -> (r: Vec<usize>)
        requires
            sorted_by(fetcher, self.items()),
        ensures
            sorted_by(fetcher, r@),
            r@.to_set() == self.items().to_set().filter(|x: usize| fetcher.key_of(x) == key),
    {
        let ghost s = self.items();
        proof {
            lemma_sorted_probes(fetcher, s, Probe::LowerBound(key));
            lemma_sorted_probes(fetcher, s, Probe::UpperBound(key));
        }
        let lower = match vector_search(&self.contents, fetcher, &Probe::LowerBound(key)) {
            Ok(_) => {
                proof {
                    assert(false);
                }
                return Vec::new();
            },
            Err(i) => i,
        };
        let upper = match vector_search(&self.contents, fetcher, &Probe::UpperBound(key)) {
            Ok(_) => {
                proof {
                    assert(false);
                }
                return Vec::new();
            },
            Err(i) => i,
        };
        proof {
            if upper < lower {
                assert(probe_rank(fetcher, s[upper as int], Probe::LowerBound(key)) == 0);
                assert(probe_rank(fetcher, s[upper as int], Probe::UpperBound(key)) == 2);
            }
        }
        let mut r: Vec<usize> = Vec::new();
        let mut i = lower;
        while i < upper
            invariant
                lower <= i <= upper,
                upper <= s.len(),
                s == self.items(),
                r@ == s.subrange(lower as int, i as int),
            decreases upper - i,
        {
            match vector_get(&self.contents, i) {
                Some(item) => r.push(item),
                None => {},
            }
            assert(s.subrange(lower as int, i + 1) =~= s.subrange(lower as int, i as int).push(
                s[i as int],
            ));
            i = i + 1;
        }
        proof {
            assert forall|a: int, b: int| 0 <= a < b < r@.len() implies entry_lt(
                fetcher,
                #[trigger] r@[a],
                #[trigger] r@[b],
            ) by {
                assert(r@[a] == s[lower + a] && r@[b] == s[lower + b]);
            }
            assert forall|x: usize| #[trigger] r@.to_set().contains(x) == s.to_set().filter(
                |x: usize| fetcher.key_of(x) == key,
            ).contains(x) by {
                if r@.contains(x) {
                    let a = choose|a: int| 0 <= a < r@.len() && r@[a] == x;
                    assert(s[lower + a] == x);
                    assert(probe_rank(fetcher, s[lower + a], Probe::LowerBound(key)) == 2);
                    assert(probe_rank(fetcher, s[lower + a], Probe::UpperBound(key)) == 0);
                }
                if s.contains(x) && fetcher.key_of(x) == key {
                    let k = choose|k: int| 0 <= k < s.len() && s[k] == x;
                    assert(probe_rank(fetcher, s[k], Probe::LowerBound(key)) == 2);
                    assert(probe_rank(fetcher, s[k], Probe::UpperBound(key)) == 0);
                    assert(lower <= k < upper);
                    assert(r@[k - lower] == x);
                }
            }
            assert(r@.to_set() =~= s.to_set().filter(|x: usize| fetcher.key_of(x) == key));
        }
        r
    }

    /// Whether `value` is among the items.
    pub fn contains<F: LendingKeyFetcher>(&self, fetcher: &F, value: usize) -> (b: bool)
        requires
            sorted_by(fetcher, self.items()),
        ensures
            b == self.items().contains(value),
    {
        proof {
            lemma_sorted_probes(fetcher, self.items(), Probe::Item(value));
        }
        let r = vector_search(&self.contents, fetcher, &Probe::Item(value));
        proof {
            let s = self.items();
            if s.contains(value) {
                let k = choose|k: int| 0 <= k < s.len() && s[k] == value;
                assert(probe_rank(fetcher, s[k], Probe::Item(value)) == 1);
            }
        }
        r.is_ok()
    }

    /// Takes out `value` if it is among the items.
    pub fn remove<F: LendingKeyFetcher>(&mut self, fetcher: &F, value: usize) -> (r: Option<usize>)
        requires
            sorted_by(fetcher, old(self).items()),
        ensures
            sorted_by(fetcher, final(self).items()),
            match r {
                Some(x) => x == value && old(self).items().contains(value)
                    && final(self).items().to_set() == old(self).items().to_set().remove(value),
                None => !old(self).items().contains(value) && final(self).items() == old(
                    self,
                ).items(),
            },
    {
        proof {
            lemma_sorted_probes(fetcher, self.items(), Probe::Item(value));
        }
        let ghost before = self.items();
        match vector_search(&self.contents, fetcher, &Probe::Item(value)) {
            Ok(index) => {
                let x = vector_remove(&mut self.contents, index);
                proof {
                    let after = self.items();
                    assert(x == value);
                    assert forall|i: int, j: int| 0 <= i < j < after.len() implies entry_lt(
                        fetcher,
                        #[trigger] after[i],
                        #[trigger] after[j],
                    ) by {
                        let i0 = if i < index { i } else { i + 1 };
                        let j0 = if j < index { j } else { j + 1 };
                        assert(after[i] == before[i0] && after[j] == before[j0]);
                    }
                    assert forall|y: usize| #[trigger] after.to_set().contains(y) == before.to_set().remove(
                        value,
                    ).contains(y) by {
                        if after.contains(y) {
                            let a = choose|a: int| 0 <= a < after.len() && after[a] == y;
                            let a0 = if a < index { a } else { a + 1 };
                            assert(before[a0] == y);
                            assert(a0 != index);
                            assert(entry_lt(fetcher, before[a0], before[index as int]) || entry_lt(
                                fetcher,
                                before[index as int],
                                before[a0],
                            ));
                        }
                        if before.contains(y) && y != value {
                            let b = choose|b: int| 0 <= b < before.len() && before[b] == y;
                            assert(b != index);
                            let a = if b < index { b } else { b - 1 };
                            assert(after[a] == y);
                        }
                    }
                    assert(after.to_set() =~= before.to_set().remove(value));
                }
                Some(x)
            },
            Err(_) => {
                proof {
                    if before.contains(value) {
                        let k = choose|k: int| 0 <= k < before.len() && before[k] == value;
                        assert(probe_rank(fetcher, before[k], Probe::Item(value)) == 1);
                    }
                }
                None
            },
        }
    }
}

} // verus!
