//! Expressions, which can be used to query an indexed map.
//!
//! A query is a boolean combination of leaf predicates, each asked of one
//! index of the map (or of the lookup of one unique entry). Negation is
//! pushed down to the leaves, and `and`/`or` are flattened and simplified as
//! the expression is built.
//!
//! Here a leaf names its predicate by its place in the query's table of leaf
//! predicates; what an entry of the map answers to each of them is a row of
//! booleans, and a map's entries are numbered by their rows.
use std::collections::HashSet;

use vstd::prelude::*;
use vstd::std_specs::iter::IteratorSpec;

verus! {

broadcast use vstd::std_specs::hash::group_hash_axioms;

/// Whether a leaf predicate is negated.
#[derive(Debug, Clone, Copy, PartialEq, Eq, Structural)]
pub enum IndexNegation {
    Negated,
    Plain,
}

/// The opposite negation.
pub open spec fn flipped(n: IndexNegation) -> IndexNegation {
    match n {
        IndexNegation::Negated => IndexNegation::Plain,
        IndexNegation::Plain => IndexNegation::Negated,
    }
}

impl IndexNegation {
    /// The opposite negation.
    pub fn negate(self) -> (r: Self)
        ensures
            r == flipped(self),
    {
        match self {
            IndexNegation::Negated => IndexNegation::Plain,
            IndexNegation::Plain => IndexNegation::Negated,
        }
    }
}

/// A leaf predicate: one on an index, or the lookup of a unique entry, by
/// its place among the query's leaf predicates.
#[derive(Debug, Clone, Copy, PartialEq, Eq, Structural)]
pub enum LeafPredType {
    Index(usize),
    Unique(usize),
}

/// The place of a leaf predicate among the query's leaf predicates.
pub open spec fn leaf_num(t: LeafPredType) -> usize {
    match t {
        LeafPredType::Index(n) => n,
        LeafPredType::Unique(n) => n,
    }
}

/// A leaf predicate, possibly negated.
#[derive(Debug, Clone, Copy, PartialEq, Eq, Structural)]
pub struct IndexPredLeaf {
    pub pred: LeafPredType,
    pub negation: IndexNegation,
}

/// Whether an entry whose answers to the leaf predicates are `row`
/// satisfies the leaf `l`.
pub open spec fn leaf_holds(l: IndexPredLeaf, row: Seq<bool>) -> bool {
    let v = row[leaf_num(l.pred) as int];
    match l.negation {
        IndexNegation::Negated => !v,
        IndexNegation::Plain => v,
    }
}

/// A size hint: a lower bound, and an upper bound if one is known.
pub type SizeHint = (usize, Option<usize>);

/// The size hint of a leaf: what its index reports (`hints` holds, for each
/// leaf predicate, the index's hints for it plain and negated); a unique
/// entry is at most one entry, and its negation has no known bound.
pub open spec fn leaf_hint(l: IndexPredLeaf, hints: Seq<(SizeHint, SizeHint)>) -> SizeHint {
    match l.pred {
        LeafPredType::Index(n) => match l.negation {
            IndexNegation::Plain => hints[n as int].0,
            IndexNegation::Negated => hints[n as int].1,
        },
        LeafPredType::Unique(_) => match l.negation {
            IndexNegation::Plain => (0, Some(1)),
            IndexNegation::Negated => (0, None),
        },
    }
}

/// The ids of the entries, among `rows`, that satisfy the leaf `l`.
pub open spec fn leaf_matching(l: IndexPredLeaf, rows: Seq<Seq<bool>>) -> Set<usize> {
    Set::new(|i: usize| i < rows.len() && leaf_holds(l, rows[i as int]))
}

/// The answers of the entries to the leaf predicates, as sequences.
pub open spec fn rows_model(rows: Seq<Vec<bool>>) -> Seq<Seq<bool>> {
    rows.map_values(|r: Vec<bool>| r@)
}

/// Whether every row answers the leaf predicates below `n`.
pub open spec fn rows_cover(rows: Seq<Seq<bool>>, n: nat) -> bool {
    forall|i: int| 0 <= i < rows.len() ==> n <= (#[trigger] rows[i]).len()
}

/// The ids of all the entries.
pub open spec fn all_ids(n: nat) -> Set<usize> {
    Set::new(|i: usize| i < n)
}

impl IndexPredLeaf {
    /// The leaf with the opposite negation.
    pub fn negate(self) -> (r: Self)
        ensures
            r.pred == self.pred,
            r.negation == flipped(self.negation),
    {
        IndexPredLeaf { pred: self.pred, negation: self.negation.negate() }
    }

    /// The leaf's size hint.
    pub fn size_hint(&self, hints: &Vec<(SizeHint, SizeHint)>) -> (h: SizeHint)
        requires
            leaf_num(self.pred) < hints@.len(),
        ensures
            h == leaf_hint(*self, hints@),
    {
        match self.pred {
            LeafPredType::Index(n) => match self.negation {
                IndexNegation::Plain => hints[n].0,
                IndexNegation::Negated => hints[n].1,
            },
            LeafPredType::Unique(_) => match self.negation {
                IndexNegation::Plain => (0, Some(1)),
                IndexNegation::Negated => (0, None),
            },
        }
    }

    /// Whether an entry whose answers are `row` satisfies the leaf.
    pub fn evaluate(&self, row: &Vec<bool>) -> (b: bool)
        requires
            leaf_num(self.pred) < row@.len(),
        ensures
            b == leaf_holds(*self, row@),
    {
        let n = match self.pred {
            LeafPredType::Index(n) => n,
            LeafPredType::Unique(n) => n,
        };
        match self.negation {
            IndexNegation::Negated => !row[n],
            IndexNegation::Plain => row[n],
        }
    }

    /// Adds to `results` the ids of the entries that satisfy the leaf.
    pub fn find_matching(&self, rows: &Vec<Vec<bool>>, results: &mut HashSet<usize>)
        requires
            rows_cover(rows_model(rows@), leaf_num(self.pred) as nat + 1),
        ensures
            final(results)@ == old(results)@.union(leaf_matching(*self, rows_model(rows@))),
    {
        let ghost rm = rows_model(rows@);
        let mut i: usize = 0;
        while i < rows.len()
            invariant
                i <= rows@.len(),
                rm == rows_model(rows@),
                rows_cover(rm, leaf_num(self.pred) as nat + 1),
                results@ == old(results)@.union(
                    leaf_matching(*self, rm).filter(|j: usize| j < i),
                ),
            decreases rows@.len() - i,
        {
            assert(rm[i as int] == rows@[i as int]@);
            assert(leaf_num(self.pred) < rm[i as int].len());
            if self.evaluate(&rows[i]) {
                results.insert(i);
            }
            assert(results@ =~= old(results)@.union(
                leaf_matching(*self, rm).filter(|j: usize| j < i + 1),
            ));
            i = i + 1;
        }
        assert(leaf_matching(*self, rm).filter(|j: usize| j < i) =~= leaf_matching(*self, rm));
    }
}

/// A reified predicate. Negation is not a kind of its own: it is pushed to
/// the leaves.
pub enum PredicateKind {
    /// A leaf predicate.
    Index(IndexPredLeaf),
    And(Vec<PredicateKind>),
    Or(Vec<PredicateKind>),
    /// Every entry.
    All,
    /// No entry.
    Nothing,
}

/// Whether an entry whose answers are `row` satisfies `p`.
pub open spec fn holds(p: PredicateKind, row: Seq<bool>) -> bool
    decreases p,
{
    match p {
        PredicateKind::Index(l) => leaf_holds(l, row),
        PredicateKind::And(ps) => all_hold(ps@, row),
        PredicateKind::Or(ps) => any_holds(ps@, row),
        PredicateKind::All => true,
        PredicateKind::Nothing => false,
    }
}

/// Whether the entry satisfies every predicate of `ps`.
pub open spec fn all_hold(ps: Seq<PredicateKind>, row: Seq<bool>) -> bool
    decreases ps,
{
    if ps.len() == 0 {
        true
    } else {
        all_hold(ps.drop_last(), row) && holds(ps.last(), row)
    }
}

/// Whether the entry satisfies some predicate of `ps`.
pub open spec fn any_holds(ps: Seq<PredicateKind>, row: Seq<bool>) -> bool
    decreases ps,
{
    if ps.len() == 0 {
        false
    } else {
        any_holds(ps.drop_last(), row) || holds(ps.last(), row)
    }
}

/// Whether every leaf of `p` names one of the first `n` leaf predicates.
pub open spec fn leaves_below(p: PredicateKind, n: nat) -> bool
    decreases p,
{
    match p {
        PredicateKind::Index(l) => leaf_num(l.pred) < n,
        PredicateKind::And(ps) => all_leaves_below(ps@, n),
        PredicateKind::Or(ps) => all_leaves_below(ps@, n),
        PredicateKind::All => true,
        PredicateKind::Nothing => true,
    }
}

/// Whether every leaf of the predicates `ps` is below `n`.
pub open spec fn all_leaves_below(ps: Seq<PredicateKind>, n: nat) -> bool
    decreases ps,
{
    if ps.len() == 0 {
        true
    } else {
        all_leaves_below(ps.drop_last(), n) && leaves_below(ps.last(), n)
    }
}

/// Whether `p` is in the simplified form the builders produce: `All` and
/// `Nothing` only at the top, and every `and` and `or` of at least two
/// predicates.
pub open spec fn normal(p: PredicateKind) -> bool
    decreases p,
{
    match p {
        PredicateKind::Index(_) => true,
        PredicateKind::And(ps) => ps.len() >= 2 && all_inner(ps@),
        PredicateKind::Or(ps) => ps.len() >= 2 && all_inner(ps@),
        PredicateKind::All => true,
        PredicateKind::Nothing => true,
    }
}

/// Whether every predicate of `ps` is normal, and neither `All` nor
/// `Nothing`.
pub open spec fn all_inner(ps: Seq<PredicateKind>) -> bool
    decreases ps,
{
    if ps.len() == 0 {
        true
    } else {
        all_inner(ps.drop_last()) && normal(ps.last()) && !(ps.last() is All) && !(
        ps.last() is Nothing)
    }
}

/// A conjunction holds when each of its predicates does; a disjunction
/// when one of them does; the leaves of a list are below `n` when each
/// predicate's are; a list is inner when each predicate is.
pub proof fn lemma_lists(ps: Seq<PredicateKind>, row: Seq<bool>, n: nat)
    ensures
        all_hold(ps, row) <==> forall|i: int| 0 <= i < ps.len() ==> holds(#[trigger] ps[i], row),
        any_holds(ps, row) <==> exists|i: int| 0 <= i < ps.len() && holds(#[trigger] ps[i], row),
        all_leaves_below(ps, n) <==> forall|i: int|
            0 <= i < ps.len() ==> leaves_below(#[trigger] ps[i], n),
        all_inner(ps) <==> forall|i: int|
            0 <= i < ps.len() ==> normal(#[trigger] ps[i]) && !(ps[i] is All) && !(
            ps[i] is Nothing),
    decreases ps.len(),
{
    if ps.len() > 0 {
        let p = ps.drop_last();
        lemma_lists(p, row, n);
        let last = ps.len() - 1;
        assert(ps.last() == ps[last]);
        assert forall|i: int| 0 <= i < p.len() implies #[trigger] p[i] == ps[i] by {}
        if forall|i: int| 0 <= i < ps.len() ==> holds(#[trigger] ps[i], row) {
            assert forall|i: int| 0 <= i < p.len() implies holds(#[trigger] p[i], row) by {
                assert(holds(ps[i], row));
            }
            assert(holds(ps[last], row));
        }
        if all_hold(ps, row) {
            assert forall|i: int| 0 <= i < ps.len() implies holds(#[trigger] ps[i], row) by {
                if i < last {
                    assert(holds(p[i], row));
                }
            }
        }
        if forall|i: int| 0 <= i < ps.len() ==> leaves_below(#[trigger] ps[i], n) {
            assert forall|i: int| 0 <= i < p.len() implies leaves_below(#[trigger] p[i], n) by {
                assert(leaves_below(ps[i], n));
            }
            assert(leaves_below(ps[last], n));
        }
        if all_leaves_below(ps, n) {
            assert forall|i: int| 0 <= i < ps.len() implies leaves_below(#[trigger] ps[i], n) by {
                if i < last {
                    assert(leaves_below(p[i], n));
                }
            }
        }
        if forall|i: int|
            0 <= i < ps.len() ==> normal(#[trigger] ps[i]) && !(ps[i] is All) && !(
            ps[i] is Nothing) {
            assert forall|i: int| 0 <= i < p.len() implies normal(#[trigger] p[i]) && !(
            p[i] is All) && !(p[i] is Nothing) by {
                assert(normal(ps[i]) && !(ps[i] is All) && !(ps[i] is Nothing));
            }
            assert(normal(ps[last]));
        }
        if all_inner(ps) {
            assert forall|i: int| 0 <= i < ps.len() implies normal(#[trigger] ps[i]) && !(
            ps[i] is All) && !(ps[i] is Nothing) by {
                if i < last {
                    assert(normal(p[i]));
                }
            }
        }
        if exists|i: int| 0 <= i < ps.len() && holds(#[trigger] ps[i], row) {
            let i = choose|i: int| 0 <= i < ps.len() && holds(#[trigger] ps[i], row);
            if i < last {
                assert(holds(p[i], row));
            }
        }
        if any_holds(ps, row) {
            if any_holds(p, row) {
                let i = choose|i: int| 0 <= i < p.len() && holds(#[trigger] p[i], row);
                assert(holds(ps[i], row));
            } else {
                assert(holds(ps[last], row));
            }
        }
    }
}

/// Whether `q` has the shape of `p` negated by De Morgan's laws: each leaf
/// flipped, `and` and `or` swapped, `All` and `Nothing` swapped.
pub open spec fn negation_shape(p: PredicateKind, q: PredicateKind) -> bool
    decreases p,
{
    match (p, q) {
        (PredicateKind::Index(l), PredicateKind::Index(m)) => m.pred == l.pred && m.negation
            == flipped(l.negation),
        (PredicateKind::And(ps), PredicateKind::Or(qs)) => shapes_negated(ps@, qs@),
        (PredicateKind::Or(ps), PredicateKind::And(qs)) => shapes_negated(ps@, qs@),
        (PredicateKind::All, PredicateKind::Nothing) => true,
        (PredicateKind::Nothing, PredicateKind::All) => true,
        _ => false,
    }
}

/// Whether `qs` are, place by place, the predicates `ps` negated.
pub open spec fn shapes_negated(ps: Seq<PredicateKind>, qs: Seq<PredicateKind>) -> bool
    decreases ps,
{
    if ps.len() == 0 {
        qs.len() == 0
    } else {
        qs.len() == ps.len() && shapes_negated(ps.drop_last(), qs.drop_last()) && negation_shape(
            ps.last(),
            qs.last(),
        )
    }
}

/// Predicates negated place by place have negated shapes.
proof fn lemma_shapes_negated(ps: Seq<PredicateKind>, qs: Seq<PredicateKind>)
    requires
        ps.len() == qs.len(),
        forall|i: int| 0 <= i < ps.len() ==> negation_shape(#[trigger] ps[i], qs[i]),
    ensures
        shapes_negated(ps, qs),
    decreases ps.len(),
{
    if ps.len() > 0 {
        let p = ps.drop_last();
        let q = qs.drop_last();
        assert forall|i: int| 0 <= i < p.len() implies negation_shape(#[trigger] p[i], q[i]) by {
            assert(p[i] == ps[i] && q[i] == qs[i]);
        }
        lemma_shapes_negated(p, q);
        assert(negation_shape(ps[ps.len() - 1], qs[qs.len() - 1]));
    }
}

/// Whether `q` is the negation of `p`: it has `p`'s shape negated, its
/// leaves are below any bound that `p`'s are, it holds exactly where `p`
/// does not, it is normal where `p` is, and `All` and `Nothing` swap.
pub open spec fn negation_of(p: PredicateKind, q: PredicateKind) -> bool {
    &&& negation_shape(p, q)
    &&& forall|n: nat| leaves_below(p, n) ==> leaves_below(q, n)
    &&& forall|row: Seq<bool>| leaves_below(p, row.len()) ==> holds(q, row) == !holds(p, row)
    &&& normal(p) ==> normal(q)
    &&& (q is All) == (p is Nothing)
    &&& (q is Nothing) == (p is All)
}

/// Whether each predicate of `qs` is the negation of the one at its place
/// in `ps`.
pub open spec fn negated_each(ps: Seq<PredicateKind>, qs: Seq<PredicateKind>) -> bool {
    &&& ps.len() == qs.len()
    &&& forall|i: int| 0 <= i < ps.len() ==> negation_of(#[trigger] ps[i], qs[i])
}

/// Negating each predicate of a conjunction gives a disjunction that holds
/// exactly where the conjunction does not, and the other way round.
proof fn lemma_negated_all(ps: Seq<PredicateKind>, qs: Seq<PredicateKind>)
    requires
        negated_each(ps, qs),
    ensures
        forall|n: nat| all_leaves_below(ps, n) ==> all_leaves_below(qs, n),
        forall|row: Seq<bool>|
            all_leaves_below(ps, row.len()) ==> any_holds(qs, row) == !all_hold(ps, row)
                && all_hold(qs, row) == !any_holds(ps, row),
        all_inner(ps) ==> all_inner(qs),
{
    assert forall|n: nat| all_leaves_below(ps, n) implies all_leaves_below(qs, n) by {
        lemma_lists(ps, Seq::empty(), n);
        lemma_lists(qs, Seq::empty(), n);
        assert forall|i: int| 0 <= i < qs.len() implies leaves_below(#[trigger] qs[i], n) by {
            assert(negation_of(ps[i], qs[i]));
            assert(leaves_below(ps[i], n));
        }
    }
    assert forall|row: Seq<bool>| all_leaves_below(ps, row.len()) implies any_holds(qs, row)
        == !all_hold(ps, row) && all_hold(qs, row) == !any_holds(ps, row) by {
        lemma_lists(ps, row, row.len());
        lemma_lists(qs, row, row.len());
        assert forall|i: int| 0 <= i < qs.len() implies holds(#[trigger] qs[i], row) == !holds(
            ps[i],
            row,
        ) by {
            assert(negation_of(ps[i], qs[i]));
            assert(leaves_below(ps[i], row.len()));
        }
        if any_holds(qs, row) {
            let i = choose|i: int| 0 <= i < qs.len() && holds(#[trigger] qs[i], row);
            assert(!holds(ps[i], row));
        }
        if !all_hold(ps, row) {
            let i = choose|i: int| 0 <= i < ps.len() && !holds(#[trigger] ps[i], row);
            assert(holds(qs[i], row));
        }
        if all_hold(qs, row) && any_holds(ps, row) {
            let i = choose|i: int| 0 <= i < ps.len() && holds(#[trigger] ps[i], row);
            assert(holds(qs[i], row));
        }
        if !any_holds(ps, row) {
            assert forall|i: int| 0 <= i < qs.len() implies holds(#[trigger] qs[i], row) by {
                assert(!holds(ps[i], row));
            }
        }
    }
    if all_inner(ps) {
        lemma_lists(ps, Seq::empty(), 0);
        lemma_lists(qs, Seq::empty(), 0);
        assert forall|i: int| 0 <= i < qs.len() implies normal(#[trigger] qs[i]) && !(
        qs[i] is All) && !(qs[i] is Nothing) by {
            assert(negation_of(ps[i], qs[i]));
            assert(normal(ps[i]) && !(ps[i] is All) && !(ps[i] is Nothing));
        }
    }
}


/// The clauses gathered for an `and` or an `or`: none, one, or several.
#[derive(Debug)]
pub enum Clauses<T> {
    Empty,
    Singleton(T),
    Multiple(Vec<T>),
}

impl<T> Default for Clauses<T> {
    /// No clause.
    fn default() -> (c: Self)
        ensures
            c is Empty,
    {
        Clauses::Empty
    }
}

impl<T> Clauses<T> {
    /// The clauses, in the order gathered.
    pub open spec fn items(&self) -> Seq<T> {
        match self {
            Clauses::Empty => Seq::empty(),
            Clauses::Singleton(v) => seq![*v],
            Clauses::Multiple(v) => v@,
        }
    }

    /// Several clauses are at least two.
    pub open spec fn wf(&self) -> bool {
        match self {
            Clauses::Multiple(v) => v@.len() >= 2,
            _ => true,
        }
    }

    /// The clauses with `value` after them.
    pub fn append(self, value: T) -> (r: Self)
        requires
            self.wf(),
        ensures
            r.wf(),
            r.items() == self.items().push(value),
    {
        match self {
            Clauses::Empty => Clauses::Singleton(value),
            Clauses::Singleton(v) => {
                let r = Clauses::Multiple(vec![v, value]);
                assert(r.items() =~= seq![v].push(value));
                r
            },
            Clauses::Multiple(mut v) => {
                v.push(value);
                Clauses::Multiple(v)
            },
        }
    }

    /// The clauses with `items` after them, in order.
    pub fn extend(self, items: Vec<T>) -> (r: Self)
        requires
            self.wf(),
        ensures
            r.wf(),
            r.items() == self.items() + items@,
    {
        let ghost start = self.items();
        let ghost v = items@;
        let mut c = self;
        for x in it: items.into_iter()
            invariant
                it.seq() == v,
                c.wf(),
                c.items() == start + v.take(it.index() as int),
        {
            let ghost j = it.index() as int;
            assert(x == v[j]);
            c = c.append(x);
            assert(v.take(j + 1) =~= v.take(j).push(v[j]));
            assert(start + v.take(j + 1) =~= (start + v.take(j)).push(v[j]));
        }
        assert(v.take(v.len() as int) =~= v);
        c
    }

    /// The one value the clauses make: `default()` for none, the clause
    /// itself for one, `combine` of them for several.
    pub fn extract(self, default: impl FnOnce() -> T, combine: impl FnOnce(Vec<T>) -> T) -> (r: T)
        requires
            self.wf(),
            call_requires(default, ()),
            forall|v: Vec<T>| v@ == self.items() ==> call_requires(combine, (v,)),
        ensures
            self.items().len() == 0 ==> call_ensures(default, (), r),
            self.items().len() == 1 ==> r == self.items()[0],
            self.items().len() >= 2 ==> exists|v: Vec<T>|
                v@ == self.items() && call_ensures(combine, (v,), r),
    {
        match self {
            Clauses::Empty => default(),
            Clauses::Singleton(v) => v,
            Clauses::Multiple(v) => combine(v),
        }
    }
}

/// Whether every predicate of `ps` is normal.
pub open spec fn all_normal(ps: Seq<PredicateKind>) -> bool {
    forall|i: int| 0 <= i < ps.len() ==> normal(#[trigger] ps[i])
}

/// What holds of a list of one predicate holds of that predicate.
proof fn lemma_single(x: PredicateKind, row: Seq<bool>, n: nat)
    ensures
        all_hold(seq![x], row) == holds(x, row),
        any_holds(seq![x], row) == holds(x, row),
        all_leaves_below(seq![x], n) == leaves_below(x, n),
        all_inner(seq![x]) == (normal(x) && !(x is All) && !(x is Nothing)),
{
    lemma_lists(seq![x], row, n);
    assert(seq![x][0] == x);
}

/// What holds of two lists holds of the one after the other.
proof fn lemma_concat(a: Seq<PredicateKind>, b: Seq<PredicateKind>, row: Seq<bool>, n: nat)
    ensures
        all_hold(a + b, row) == (all_hold(a, row) && all_hold(b, row)),
        any_holds(a + b, row) == (any_holds(a, row) || any_holds(b, row)),
        all_leaves_below(a + b, n) == (all_leaves_below(a, n) && all_leaves_below(b, n)),
        all_inner(a + b) == (all_inner(a) && all_inner(b)),
{
    let c = a + b;
    lemma_lists(a, row, n);
    lemma_lists(b, row, n);
    lemma_lists(c, row, n);
    assert forall|i: int| 0 <= i < a.len() implies #[trigger] c[i] == a[i] by {}
    assert forall|i: int| 0 <= i < b.len() implies #[trigger] c[a.len() + i] == b[i] by {}
    if all_hold(a, row) && all_hold(b, row) {
        assert forall|i: int| 0 <= i < c.len() implies holds(#[trigger] c[i], row) by {
            if i >= a.len() {
                assert(c[a.len() + (i - a.len())] == b[i - a.len()]);
            }
        }
    }
    if all_hold(c, row) {
        assert forall|i: int| 0 <= i < a.len() implies holds(#[trigger] a[i], row) by {
            assert(holds(c[i], row));
        }
        assert forall|i: int| 0 <= i < b.len() implies holds(#[trigger] b[i], row) by {
            assert(holds(c[a.len() + i], row));
        }
    }
    if any_holds(c, row) {
        let i = choose|i: int| 0 <= i < c.len() && holds(#[trigger] c[i], row);
        if i >= a.len() {
            assert(c[a.len() + (i - a.len())] == b[i - a.len()]);
            assert(holds(b[i - a.len()], row));
        }
    }
    if any_holds(b, row) {
        let i = choose|i: int| 0 <= i < b.len() && holds(#[trigger] b[i], row);
        assert(holds(c[a.len() + i], row));
    }
    if any_holds(a, row) {
        let i = choose|i: int| 0 <= i < a.len() && holds(#[trigger] a[i], row);
        assert(holds(c[i], row));
    }
    if all_leaves_below(a, n) && all_leaves_below(b, n) {
        assert forall|i: int| 0 <= i < c.len() implies leaves_below(#[trigger] c[i], n) by {
            if i >= a.len() {
                assert(c[a.len() + (i - a.len())] == b[i - a.len()]);
            }
        }
    }
    if all_leaves_below(c, n) {
        assert forall|i: int| 0 <= i < a.len() implies leaves_below(#[trigger] a[i], n) by {
            assert(leaves_below(c[i], n));
        }
        assert forall|i: int| 0 <= i < b.len() implies leaves_below(#[trigger] b[i], n) by {
            assert(leaves_below(c[a.len() + i], n));
        }
    }
    if all_inner(a) && all_inner(b) {
        assert forall|i: int| 0 <= i < c.len() implies normal(#[trigger] c[i]) && !(c[i] is All)
            && !(c[i] is Nothing) by {
            if i >= a.len() {
                assert(c[a.len() + (i - a.len())] == b[i - a.len()]);
            }
        }
    }
    if all_inner(c) {
        assert forall|i: int| 0 <= i < a.len() implies normal(#[trigger] a[i]) && !(a[i] is All)
            && !(a[i] is Nothing) by {
            assert(normal(c[i]));
        }
        assert forall|i: int| 0 <= i < b.len() implies normal(#[trigger] b[i]) && !(b[i] is All)
            && !(b[i] is Nothing) by {
            assert(normal(c[a.len() + i]));
        }
    }
}


/// The ids of the entries, among `rows`, that satisfy `p`.
pub open spec fn matching_ids(p: PredicateKind, rows: Seq<Seq<bool>>) -> Set<usize> {
    Set::new(|i: usize| i < rows.len() && holds(p, rows[i as int]))
}

/// Whether every row answers every leaf predicate of `p`.
pub open spec fn rows_answer(p: PredicateKind, rows: Seq<Seq<bool>>) -> bool {
    forall|i: int| 0 <= i < rows.len() ==> leaves_below(p, (#[trigger] rows[i]).len())
}

/// Whether `s` holds only ids of entries among `n`.
pub open spec fn ids_below(s: Set<usize>, n: nat) -> bool {
    forall|x: usize| #[trigger] s.contains(x) ==> x < n
}


/// Whether every `and` in `p` has at least one clause.
pub open spec fn ands_nonempty(p: PredicateKind) -> bool
    decreases p,
{
    match p {
        PredicateKind::And(ps) => ps.len() >= 1 && all_ands_nonempty(ps@),
        PredicateKind::Or(ps) => all_ands_nonempty(ps@),
        _ => true,
    }
}

/// Whether every `and` in the predicates `ps` has at least one clause.
pub open spec fn all_ands_nonempty(ps: Seq<PredicateKind>) -> bool
    decreases ps,
{
    if ps.len() == 0 {
        true
    } else {
        all_ands_nonempty(ps.drop_last()) && ands_nonempty(ps.last())
    }
}

/// What collecting `p` into the ids `s` leaves there: a leaf adds its
/// matches; an `and` adds, of the ids its first clause collects on its own,
/// those whose entries satisfy the other clauses; an `or` collects each
/// clause in turn; `All` adds every entry; `Nothing` adds none.
pub open spec fn collected(p: PredicateKind, rows: Seq<Seq<bool>>, s: Set<usize>) -> Set<usize>
    decreases p,
{
    match p {
        PredicateKind::Index(l) => s.union(leaf_matching(l, rows)),
        PredicateKind::And(ps) => if ps@.len() == 0 {
            s
        } else {
            s.union(
                collected(ps@[0], rows, Set::empty()).filter(
                    |x: usize| all_hold(ps@.drop_first(), rows[x as int]),
                ),
            )
        },
        PredicateKind::Or(ps) => collected_seq(ps@, rows, s),
        PredicateKind::All => s.union(all_ids(rows.len())),
        PredicateKind::Nothing => s,
    }
}

/// What collecting each predicate of `ps` in turn into `s` leaves there.
pub open spec fn collected_seq(ps: Seq<PredicateKind>, rows: Seq<Seq<bool>>, s: Set<usize>) -> Set<
    usize,
>
    decreases ps,
{
    if ps.len() == 0 {
        s
    } else {
        collected(ps.last(), rows, collected_seq(ps.drop_last(), rows, s))
    }
}

/// In a list, every `and` has a clause when it does in each predicate.
proof fn lemma_nonempty_lists(ps: Seq<PredicateKind>)
    ensures
        all_ands_nonempty(ps) <==> forall|i: int| 0 <= i < ps.len() ==> ands_nonempty(#[trigger] ps[i]),
    decreases ps.len(),
{
    if ps.len() > 0 {
        let p = ps.drop_last();
        lemma_nonempty_lists(p);
        assert forall|i: int| 0 <= i < p.len() implies #[trigger] p[i] == ps[i] by {}
        if all_ands_nonempty(ps) {
            assert forall|i: int| 0 <= i < ps.len() implies ands_nonempty(#[trigger] ps[i]) by {
                if i < ps.len() - 1 {
                    assert(ands_nonempty(p[i]));
                }
            }
        }
        if forall|i: int| 0 <= i < ps.len() ==> ands_nonempty(#[trigger] ps[i]) {
            assert forall|i: int| 0 <= i < p.len() implies ands_nonempty(#[trigger] p[i]) by {
                assert(ands_nonempty(ps[i]));
            }
            assert(ands_nonempty(ps[ps.len() - 1]));
        }
    }
}


/// The smaller of two upper bounds, where `None` is no bound.
pub open spec fn min_upper(a: Option<usize>, b: Option<usize>) -> Option<usize> {
    match (a, b) {
        (None, None) => None,
        (Some(x), None) => Some(x),
        (None, Some(x)) => Some(x),
        (Some(x), Some(y)) => Some(if x <= y { x } else { y }),
    }
}

/// The size hint of `p`, for leaf hints `hints` and a map of `size`
/// entries: an `and` has no lower bound (its clauses may be disjoint) and
/// the smallest upper bound of its clauses; an `or` has the greatest lower
/// bound of its clauses and no upper bound; `All` is every entry and
/// `Nothing` none.
pub open spec fn hint_of(p: PredicateKind, hints: Seq<(SizeHint, SizeHint)>, size: usize) -> SizeHint
    decreases p,
{
    match p {
        PredicateKind::Index(l) => leaf_hint(l, hints),
        PredicateKind::And(ps) => (0, and_upper(ps@, hints, size)),
        PredicateKind::Or(ps) => (or_lower(ps@, hints, size), None),
        PredicateKind::All => (size, Some(size)),
        PredicateKind::Nothing => (0, Some(0)),
    }
}

/// The smallest upper bound of the predicates `ps`.
pub open spec fn and_upper(ps: Seq<PredicateKind>, hints: Seq<(SizeHint, SizeHint)>, size: usize) -> Option<usize>
    decreases ps,
{
    if ps.len() == 0 {
        None
    } else {
        min_upper(and_upper(ps.drop_last(), hints, size), hint_of(ps.last(), hints, size).1)
    }
}

/// The greatest lower bound of the predicates `ps`.
pub open spec fn or_lower(ps: Seq<PredicateKind>, hints: Seq<(SizeHint, SizeHint)>, size: usize) -> usize
    decreases ps,
{
    if ps.len() == 0 {
        0
    } else {
        let a = or_lower(ps.drop_last(), hints, size);
        let b = hint_of(ps.last(), hints, size).0;
        if a >= b {
            a
        } else {
            b
        }
    }
}


/// The ids of the entries, among `rows`, that satisfy some predicate of
/// `ps`.
pub open spec fn matching_any(ps: Seq<PredicateKind>, rows: Seq<Seq<bool>>) -> Set<usize> {
    Set::new(|i: usize| i < rows.len() && any_holds(ps, rows[i as int]))
}

/// A list holds, and some predicate of it holds, by its first predicate and
/// the rest.
proof fn lemma_first_rest(ps: Seq<PredicateKind>, row: Seq<bool>)
    requires
        ps.len() > 0,
    ensures
        all_hold(ps, row) == (holds(ps[0], row) && all_hold(ps.drop_first(), row)),
        any_holds(ps, row) == (holds(ps[0], row) || any_holds(ps.drop_first(), row)),
{
    let r = ps.drop_first();
    lemma_lists(ps, row, 0);
    lemma_lists(r, row, 0);
    assert forall|i: int| 0 <= i < r.len() implies #[trigger] r[i] == ps[i + 1] by {}
    if holds(ps[0], row) && all_hold(r, row) {
        assert forall|i: int| 0 <= i < ps.len() implies holds(#[trigger] ps[i], row) by {
            if i > 0 {
                assert(r[i - 1] == ps[i]);
            }
        }
    }
    if all_hold(ps, row) {
        assert forall|i: int| 0 <= i < r.len() implies holds(#[trigger] r[i], row) by {
            assert(holds(ps[i + 1], row));
        }
    }
    if any_holds(ps, row) {
        let i = choose|i: int| 0 <= i < ps.len() && holds(#[trigger] ps[i], row);
        if i > 0 {
            assert(r[i - 1] == ps[i]);
        }
    }
    if any_holds(r, row) {
        let i = choose|i: int| 0 <= i < r.len() && holds(#[trigger] r[i], row);
        assert(holds(ps[i + 1], row));
    }
}

/// Collecting a predicate whose `and`s have clauses into `s` adds its
/// matches to `s`, and nothing else.
pub proof fn lemma_union_like(p: PredicateKind, rows: Seq<Seq<bool>>, s: Set<usize>)
    requires
        ands_nonempty(p),
    ensures
        collected(p, rows, s) == s.union(matching_ids(p, rows)),
    decreases p,
{
    match p {
        PredicateKind::Index(l) => {
            assert(leaf_matching(l, rows) =~= matching_ids(p, rows));
        },
        PredicateKind::All => {
            assert(all_ids(rows.len()) =~= matching_ids(p, rows));
        },
        PredicateKind::Nothing => {
            assert(s.union(matching_ids(p, rows)) =~= s);
        },
        PredicateKind::And(ps) => {
            assert(decreases_to!(p => p->And_0));
            assert(decreases_to!(ps => ps@));
            assert(decreases_to!(ps@ => ps@[0]));
            lemma_nonempty_lists(ps@);
            lemma_union_like(ps@[0], rows, Set::empty());
            let first = collected(ps@[0], rows, Set::empty());
            assert(first =~= matching_ids(ps@[0], rows));
            let kept = first.filter(|x: usize| all_hold(ps@.drop_first(), rows[x as int]));
            assert forall|x: usize| #[trigger] kept.contains(x) == matching_ids(p, rows).contains(x) by {
                if x < rows.len() {
                    lemma_first_rest(ps@, rows[x as int]);
                }
            }
            assert(kept =~= matching_ids(p, rows));
        },
        PredicateKind::Or(ps) => {
            assert(decreases_to!(p => p->Or_0));
            assert(decreases_to!(ps => ps@));
            lemma_union_like_seq(ps@, rows, s);
            assert(matching_any(ps@, rows) =~= matching_ids(p, rows));
        },
    }
}

/// Collecting predicates whose `and`s have clauses in turn into `s` adds
/// to `s` the matches of any of them.
pub proof fn lemma_union_like_seq(ps: Seq<PredicateKind>, rows: Seq<Seq<bool>>, s: Set<usize>)
    requires
        all_ands_nonempty(ps),
    ensures
        collected_seq(ps, rows, s) == s.union(matching_any(ps, rows)),
    decreases ps,
{
    if ps.len() == 0 {
        assert(matching_any(ps, rows) =~= Set::<usize>::empty());
    } else {
        let p = ps.drop_last();
        lemma_union_like_seq(p, rows, s);
        lemma_union_like(ps.last(), rows, collected_seq(p, rows, s));
        assert(s.union(matching_any(p, rows)).union(matching_ids(ps.last(), rows)) =~= s.union(
            matching_any(ps, rows),
        ));
    }
}

/// Collecting, from no ids, a predicate whose `and`s have clauses gives
/// exactly the ids of the entries that satisfy it.
pub proof fn lemma_collect_exact(p: PredicateKind, rows: Seq<Seq<bool>>)
    requires
        ands_nonempty(p),
    ensures
        collected(p, rows, Set::empty()) == matching_ids(p, rows),
{
    lemma_union_like(p, rows, Set::empty());
    assert(Set::<usize>::empty().union(matching_ids(p, rows)) =~= matching_ids(p, rows));
}

/// A normal predicate's `and`s have clauses.
pub proof fn lemma_normal_ands_nonempty(p: PredicateKind)
    requires
        normal(p),
    ensures
        ands_nonempty(p),
    decreases p,
{
    match p {
        PredicateKind::And(ps) => {
            lemma_lists(ps@, Seq::empty(), 0);
            assert(decreases_to!(p => p->And_0));
            assert(decreases_to!(ps => ps@));
            assert forall|i: int| 0 <= i < ps@.len() implies ands_nonempty(#[trigger] ps@[i]) by {
                assert(decreases_to!(ps@ => ps@[i]));
                lemma_normal_ands_nonempty(ps@[i]);
            }
            lemma_nonempty_lists(ps@);
        },
        PredicateKind::Or(ps) => {
            lemma_lists(ps@, Seq::empty(), 0);
            assert(decreases_to!(p => p->Or_0));
            assert(decreases_to!(ps => ps@));
            assert forall|i: int| 0 <= i < ps@.len() implies ands_nonempty(#[trigger] ps@[i]) by {
                assert(decreases_to!(ps@ => ps@[i]));
                lemma_normal_ands_nonempty(ps@[i]);
            }
            lemma_nonempty_lists(ps@);
        },
        _ => {},
    }
}

/// Whether the size hint `h` bounds `count`: its lower bound is at most
/// `count`, and its upper bound, if any, at least.
pub open spec fn hint_bounds(h: SizeHint, count: nat) -> bool {
    &&& h.0 <= count
    &&& h.1 matches Some(u) ==> count <= u
}

/// Whether the leaf hints `hints` bound the number of entries, among
/// `rows`, that satisfy each leaf.
pub open spec fn leaf_hints_sound(hints: Seq<(SizeHint, SizeHint)>, rows: Seq<Seq<bool>>) -> bool {
    forall|l: IndexPredLeaf|
        leaf_num(l.pred) < hints.len() ==> #[trigger] hint_bounds(
            leaf_hint(l, hints),
            leaf_matching(l, rows).len(),
        )
}

/// The ids of the entries, among `rows`, that satisfy every predicate of
/// `ps`.
pub open spec fn matching_all(ps: Seq<PredicateKind>, rows: Seq<Seq<bool>>) -> Set<usize> {
    Set::new(|i: usize| i < rows.len() && all_hold(ps, rows[i as int]))
}

/// The ids of `n` entries are `n` ids.
proof fn lemma_all_ids(n: nat)
    requires
        n <= usize::MAX + 1,
    ensures
        all_ids(n).finite(),
        all_ids(n).len() == n,
    decreases n,
{
    if n == 0 {
        assert(all_ids(n) =~= Set::<usize>::empty());
    } else {
        lemma_all_ids((n - 1) as nat);
        let last = (n - 1) as usize;
        assert(all_ids(n) =~= all_ids((n - 1) as nat).insert(last));
        assert(!all_ids((n - 1) as nat).contains(last));
    }
}

/// A set of ids of entries among `n` is finite, and no larger than `n`.
proof fn lemma_ids_bounded(s: Set<usize>, n: nat)
    requires
        n <= usize::MAX + 1,
        forall|x: usize| #[trigger] s.contains(x) ==> x < n,
    ensures
        s.finite(),
        s.len() <= n,
{
    lemma_all_ids(n);
    vstd::set_lib::lemma_len_subset(s, all_ids(n));
}

/// When the leaf hints are sound, so is the size hint of `p`: at most its
/// lower bound, and at least its upper bound, of the entries satisfy it.
pub proof fn lemma_hint_sound(
    p: PredicateKind,
    hints: Seq<(SizeHint, SizeHint)>,
    rows: Seq<Seq<bool>>,
    size: usize,
)
    requires
        leaf_hints_sound(hints, rows),
        leaves_below(p, hints.len()),
        size == rows.len(),
    ensures
        hint_bounds(hint_of(p, hints, size), matching_ids(p, rows).len()),
    decreases p,
{
    lemma_ids_bounded(matching_ids(p, rows), rows.len());
    match p {
        PredicateKind::Index(l) => {
            assert(leaf_matching(l, rows) =~= matching_ids(p, rows));
            assert(hint_bounds(leaf_hint(l, hints), leaf_matching(l, rows).len()));
        },
        PredicateKind::And(ps) => {
            assert(decreases_to!(p => p->And_0));
            assert(decreases_to!(ps => ps@));
            lemma_and_upper(ps@, hints, rows, size);
            assert(matching_all(ps@, rows) =~= matching_ids(p, rows));
        },
        PredicateKind::Or(ps) => {
            assert(decreases_to!(p => p->Or_0));
            assert(decreases_to!(ps => ps@));
            lemma_or_lower(ps@, hints, rows, size);
            assert(matching_any(ps@, rows) =~= matching_ids(p, rows));
        },
        PredicateKind::All => {
            lemma_all_ids(rows.len());
            assert(all_ids(rows.len()) =~= matching_ids(p, rows));
        },
        PredicateKind::Nothing => {
            assert(matching_ids(p, rows) =~= Set::<usize>::empty());
        },
    }
}

/// When the leaf hints are sound, at most the smallest upper bound of the
/// predicates `ps` of the entries satisfy all of them.
proof fn lemma_and_upper(
    ps: Seq<PredicateKind>,
    hints: Seq<(SizeHint, SizeHint)>,
    rows: Seq<Seq<bool>>,
    size: usize,
)
    requires
        leaf_hints_sound(hints, rows),
        all_leaves_below(ps, hints.len()),
        size == rows.len(),
    ensures
        and_upper(ps, hints, size) matches Some(u) ==> matching_all(ps, rows).len() <= u,
    decreases ps,
{
    if ps.len() > 0 {
        let p = ps.drop_last();
        let q = ps.last();
        lemma_and_upper(p, hints, rows, size);
        lemma_hint_sound(q, hints, rows, size);
        lemma_ids_bounded(matching_all(p, rows), rows.len());
        lemma_ids_bounded(matching_ids(q, rows), rows.len());
        lemma_ids_bounded(matching_all(ps, rows), rows.len());
        vstd::set_lib::lemma_len_subset(matching_all(ps, rows), matching_all(p, rows));
        vstd::set_lib::lemma_len_subset(matching_all(ps, rows), matching_ids(q, rows));
    }
}

/// When the leaf hints are sound, at least the greatest lower bound of the
/// predicates `ps` of the entries satisfy one of them.
proof fn lemma_or_lower(
    ps: Seq<PredicateKind>,
    hints: Seq<(SizeHint, SizeHint)>,
    rows: Seq<Seq<bool>>,
    size: usize,
)
    requires
        leaf_hints_sound(hints, rows),
        all_leaves_below(ps, hints.len()),
        size == rows.len(),
    ensures
        or_lower(ps, hints, size) <= matching_any(ps, rows).len(),
    decreases ps,
{
    if ps.len() > 0 {
        let p = ps.drop_last();
        let q = ps.last();
        lemma_or_lower(p, hints, rows, size);
        lemma_hint_sound(q, hints, rows, size);
        lemma_ids_bounded(matching_any(ps, rows), rows.len());
        vstd::set_lib::lemma_len_subset(matching_any(p, rows), matching_any(ps, rows));
        vstd::set_lib::lemma_len_subset(matching_ids(q, rows), matching_any(ps, rows));
    }
}

/// The predicate that every entry satisfies.
fn all_kind() -> (a: PredicateKind)
    ensures
        a is All,
{
    PredicateKind::All
}

/// The predicate that no entry satisfies.
fn nothing_kind() -> (a: PredicateKind)
    ensures
        a is Nothing,
{
    PredicateKind::Nothing
}

/// The conjunction of `ps`.
fn and_kind(ps: Vec<PredicateKind>) -> (a: PredicateKind)
    ensures
        a == PredicateKind::And(ps),
{
    PredicateKind::And(ps)
}

/// The disjunction of `ps`.
fn or_kind(ps: Vec<PredicateKind>) -> (a: PredicateKind)
    ensures
        a == PredicateKind::Or(ps),
{
    PredicateKind::Or(ps)
}

impl PredicateKind {
    /// The negation of the predicate, pushed down to the leaves (by De
    /// Morgan's laws): `All` and `Nothing` swap, `and` and `or` swap, and
    /// each leaf flips its negation.
    pub fn negate(self) -> (r: Self)
        ensures
            negation_shape(self, r),
            forall|n: nat| leaves_below(self, n) ==> leaves_below(r, n),
            forall|row: Seq<bool>|
                leaves_below(self, row.len()) ==> holds(r, row) == !holds(self, row),
            normal(self) ==> normal(r),
            (r is All) == (self is Nothing),
            (r is Nothing) == (self is All),
        decreases self,
    {
        match self {
            PredicateKind::Index(l) => {
                let m = l.negate();
                let r = PredicateKind::Index(m);
                proof {
                    assert forall|n: nat| leaves_below(self, n) implies leaves_below(r, n) by {
                        assert(leaf_num(m.pred) == leaf_num(l.pred));
                    }
                    assert forall|row: Seq<bool>| leaves_below(self, row.len()) implies holds(r, row)
                        == !holds(self, row) by {
                        assert(holds(r, row) == leaf_holds(m, row));
                        assert(holds(self, row) == leaf_holds(l, row));
                    }
                }
                r
            },
            PredicateKind::And(ps) => {
                let ghost v = ps;
                proof {
                    assert(decreases_to!(self => self->And_0));
                }
                let qs = Self::negate_all(ps);
                proof {
                    lemma_negated_all(v@, qs@);
                    lemma_shapes_negated(v@, qs@);
                }
                let ghost w = qs;
                let r = PredicateKind::Or(qs);
                proof {
                    assert forall|n: nat| leaves_below(self, n) implies leaves_below(r, n) by {
                        assert(leaves_below(self, n) == all_leaves_below(v@, n));
                        assert(leaves_below(r, n) == all_leaves_below(w@, n));
                    }
                    assert forall|row: Seq<bool>| leaves_below(self, row.len()) implies holds(r, row)
                        == !holds(self, row) by {
                        assert(leaves_below(self, row.len()) == all_leaves_below(v@, row.len()));
                        assert(holds(self, row) == all_hold(v@, row));
                        assert(holds(r, row) == any_holds(w@, row));
                    }
                }
                r
            },
            PredicateKind::Or(ps) => {
                let ghost v = ps;
                proof {
                    assert(decreases_to!(self => self->Or_0));
                }
                let qs = Self::negate_all(ps);
                proof {
                    lemma_negated_all(v@, qs@);
                    lemma_shapes_negated(v@, qs@);
                }
                let ghost w = qs;
                let r = PredicateKind::And(qs);
                proof {
                    assert forall|n: nat| leaves_below(self, n) implies leaves_below(r, n) by {
                        assert(leaves_below(self, n) == all_leaves_below(v@, n));
                        assert(leaves_below(r, n) == all_leaves_below(w@, n));
                    }
                    assert forall|row: Seq<bool>| leaves_below(self, row.len()) implies holds(r, row)
                        == !holds(self, row) by {
                        assert(leaves_below(self, row.len()) == all_leaves_below(v@, row.len()));
                        assert(holds(self, row) == any_holds(v@, row));
                        assert(holds(r, row) == all_hold(w@, row));
                    }
                }
                r
            },
            PredicateKind::All => PredicateKind::Nothing,
            PredicateKind::Nothing => PredicateKind::All,
        }
    }

    /// The negations of the predicates `ps`, in order.
    fn negate_all(ps: Vec<PredicateKind>) -> (r: Vec<PredicateKind>)
        ensures
            negated_each(ps@, r@),
        decreases ps,
    {
        let ghost v = ps;
        let mut r: Vec<PredicateKind> = Vec::new();
        for p in it: ps.into_iter()
            invariant
                it.seq() == v@,
                r@.len() == it.index(),
                negated_each(v@.take(it.index() as int), r@),
        {
            let ghost j = it.index() as int;
            assert(p == v@[j]);
            proof {
                assert(decreases_to!(v => v[j]));
            }
            let q = p.negate();
            r.push(q);
            assert(v@.take(j + 1) =~= v@.take(j).push(v@[j]));
        }
        assert(v@.take(v@.len() as int) =~= v@);
        r
    }

    /// The conjunction of `preds`, simplified: `Nothing` if one of them is
    /// `Nothing`; `All` clauses are dropped and `and` clauses spliced in;
    /// then `All` for no clause left, the clause itself for one, and their
    /// `and` for several.
    pub fn new_and(preds: Vec<PredicateKind>) -> (r: Self)
        ensures
            forall|row: Seq<bool>|
                all_leaves_below(preds@, row.len()) ==> holds(r, row) == all_hold(preds@, row),
            forall|n: nat| all_leaves_below(preds@, n) ==> leaves_below(r, n),
            all_normal(preds@) ==> normal(r),
            (exists|i: int| 0 <= i < preds@.len() && preds@[i] is Nothing) ==> r is Nothing,
    {
        let ghost v = preds@;
        let mut clauses: Clauses<PredicateKind> = Clauses::default();
        let ghost mut seen: int = 0;
        for pred in it: preds.into_iter()
            invariant
                it.seq() == v,
                seen == it.index(),
                clauses.wf(),
                forall|row: Seq<bool>|
                    all_leaves_below(v.take(seen), row.len()) ==> all_hold(
                        clauses.items(),
                        row,
                    ) == all_hold(v.take(seen), row),
                forall|n: nat|
                    all_leaves_below(v.take(seen), n) ==> all_leaves_below(
                        clauses.items(),
                        n,
                    ),
                all_normal(v.take(seen)) ==> all_inner(clauses.items()),
                forall|i: int| 0 <= i < seen ==> !(v[i] is Nothing),
        {
            let ghost j = seen;
            let ghost before = clauses.items();
            assert(pred == v[j]);
            assert(v.take(j + 1) =~= v.take(j).push(v[j]));
            proof {
                assert(v.take(j + 1).drop_last() =~= v.take(j));
                assert(v.take(j + 1).last() == v[j]);
                assert forall|row: Seq<bool>| #[trigger] all_hold(v.take(j + 1), row) == (all_hold(
                    v.take(j),
                    row,
                ) && holds(v[j], row)) by {}
                assert forall|n: nat| #[trigger] all_leaves_below(v.take(j + 1), n) == (
                all_leaves_below(v.take(j), n) && leaves_below(v[j], n)) by {}
                if all_normal(v.take(j + 1)) {
                    assert(normal(v.take(j + 1)[j]));
                    assert forall|i: int| 0 <= i < j implies normal(#[trigger] v.take(j)[i]) by {
                        assert(normal(v.take(j + 1)[i]));
                    }
                }
            }
            match pred {
                PredicateKind::Nothing => {
                    proof {
                        assert forall|row: Seq<bool>|
                            all_leaves_below(v, row.len()) implies !all_hold(v, row) by {
                            lemma_lists(v, row, row.len());
                            assert(!holds(v[j], row));
                        }
                    }
                    return PredicateKind::Nothing;
                },
                PredicateKind::All => {},
                PredicateKind::And(ps) => {
                    let ghost w = ps@;
                    clauses = clauses.extend(ps);
                    proof {
                        assert forall|row: Seq<bool>| #[trigger] all_hold(clauses.items(), row) == (
                        all_hold(before, row) && all_hold(w, row)) by {
                            lemma_concat(before, w, row, 0);
                        }
                        assert forall|n: nat| #[trigger] all_leaves_below(clauses.items(), n) == (
                        all_leaves_below(before, n) && all_leaves_below(w, n)) by {
                            lemma_concat(before, w, Seq::empty(), n);
                        }
                        lemma_concat(before, w, Seq::empty(), 0);
                    }
                },
                pred => {
                    clauses = clauses.append(pred);
                    proof {
                        assert(clauses.items() =~= before + seq![v[j]]);
                        assert forall|row: Seq<bool>| #[trigger] all_hold(clauses.items(), row) == (
                        all_hold(before, row) && holds(v[j], row)) by {
                            lemma_concat(before, seq![v[j]], row, 0);
                            lemma_single(v[j], row, 0);
                        }
                        assert forall|n: nat| #[trigger] all_leaves_below(clauses.items(), n) == (
                        all_leaves_below(before, n) && leaves_below(v[j], n)) by {
                            lemma_concat(before, seq![v[j]], Seq::empty(), n);
                            lemma_single(v[j], Seq::empty(), n);
                        }
                        lemma_concat(before, seq![v[j]], Seq::empty(), 0);
                        lemma_single(v[j], Seq::empty(), 0);
                    }
                },
            }
            proof {
                seen = seen + 1;
            }
        }
        proof {
            assert(seen == v.len());
            assert(v.take(v.len() as int) =~= v);
            lemma_lists(clauses.items(), Seq::empty(), 0);
        }
        let ghost items = clauses.items();
        assert(forall|row: Seq<bool>| all_leaves_below(v, row.len()) ==> all_hold(items, row) == all_hold(v, row));
        assert(forall|n: nat| all_leaves_below(v, n) ==> all_leaves_below(items, n));
        let r = clauses.extract(all_kind, and_kind);
        proof {
            if items.len() == 1 {
                assert(items =~= seq![items[0]]);
                assert forall|row: Seq<bool>| #[trigger] all_hold(items, row) == holds(items[0], row) by {
                    lemma_single(items[0], row, 0);
                }
                assert forall|n: nat| #[trigger] all_leaves_below(items, n) == leaves_below(items[0], n) by {
                    lemma_single(items[0], Seq::empty(), n);
                }
                lemma_single(items[0], Seq::empty(), 0);
            }
            if items.len() == 0 {
                assert(r is All);
            }
            if items.len() >= 2 {
                let vv = choose|vv: Vec<PredicateKind>|
                    vv@ == items && call_ensures(and_kind, (vv,), r);
                assert(r == PredicateKind::And(vv));
            }
            assert forall|row: Seq<bool>| all_leaves_below(v, row.len()) implies holds(r, row) == all_hold(v, row) by {
                assert(all_hold(items, row) == all_hold(v, row));
                if items.len() == 0 {
                    assert(all_hold(items, row));
                }
            }
            assert forall|n: nat| all_leaves_below(v, n) implies leaves_below(r, n) by {
                assert(all_leaves_below(items, n));
            }
        }
        r
    }

    /// The disjunction of `preds`, simplified: `All` if one of them is
    /// `All`; `Nothing` clauses are dropped and `or` clauses spliced in;
    /// then `Nothing` for no clause left, the clause itself for one, and
    /// their `or` for several.
    pub fn new_or(preds: Vec<PredicateKind>) -> (r: Self)
        ensures
            forall|row: Seq<bool>|
                all_leaves_below(preds@, row.len()) ==> holds(r, row) == any_holds(preds@, row),
            forall|n: nat| all_leaves_below(preds@, n) ==> leaves_below(r, n),
            all_normal(preds@) ==> normal(r),
            (exists|i: int| 0 <= i < preds@.len() && preds@[i] is All) ==> r is All,
    {
        let ghost v = preds@;
        let mut clauses: Clauses<PredicateKind> = Clauses::default();
        let ghost mut seen: int = 0;
        for pred in it: preds.into_iter()
            invariant
                it.seq() == v,
                seen == it.index(),
                clauses.wf(),
                forall|row: Seq<bool>|
                    all_leaves_below(v.take(seen), row.len()) ==> any_holds(
                        clauses.items(),
                        row,
                    ) == any_holds(v.take(seen), row),
                forall|n: nat|
                    all_leaves_below(v.take(seen), n) ==> all_leaves_below(
                        clauses.items(),
                        n,
                    ),
                all_normal(v.take(seen)) ==> all_inner(clauses.items()),
                forall|i: int| 0 <= i < seen ==> !(v[i] is All),
        {
            let ghost j = seen;
            let ghost before = clauses.items();
            assert(pred == v[j]);
            assert(v.take(j + 1) =~= v.take(j).push(v[j]));
            proof {
                assert(v.take(j + 1).drop_last() =~= v.take(j));
                assert(v.take(j + 1).last() == v[j]);
                assert forall|row: Seq<bool>| #[trigger] any_holds(v.take(j + 1), row) == (any_holds(
                    v.take(j),
                    row,
                ) || holds(v[j], row)) by {}
                assert forall|n: nat| #[trigger] all_leaves_below(v.take(j + 1), n) == (
                all_leaves_below(v.take(j), n) && leaves_below(v[j], n)) by {}
                if all_normal(v.take(j + 1)) {
                    assert(normal(v.take(j + 1)[j]));
                    assert forall|i: int| 0 <= i < j implies normal(#[trigger] v.take(j)[i]) by {
                        assert(normal(v.take(j + 1)[i]));
                    }
                }
            }
            match pred {
                PredicateKind::All => {
                    proof {
                        assert forall|row: Seq<bool>|
                            all_leaves_below(v, row.len()) implies any_holds(v, row) by {
                            lemma_lists(v, row, row.len());
                            assert(holds(v[j], row));
                        }
                    }
                    return PredicateKind::All;
                },
                PredicateKind::Nothing => {},
                PredicateKind::Or(ps) => {
                    let ghost w = ps@;
                    clauses = clauses.extend(ps);
                    proof {
                        assert forall|row: Seq<bool>| #[trigger] any_holds(clauses.items(), row) == (
                        any_holds(before, row) || any_holds(w, row)) by {
                            lemma_concat(before, w, row, 0);
                        }
                        assert forall|n: nat| #[trigger] all_leaves_below(clauses.items(), n) == (
                        all_leaves_below(before, n) && all_leaves_below(w, n)) by {
                            lemma_concat(before, w, Seq::empty(), n);
                        }
                        lemma_concat(before, w, Seq::empty(), 0);
                    }
                },
                pred => {
                    clauses = clauses.append(pred);
                    proof {
                        assert(clauses.items() =~= before + seq![v[j]]);
                        assert forall|row: Seq<bool>| #[trigger] any_holds(clauses.items(), row) == (
                        any_holds(before, row) || holds(v[j], row)) by {
                            lemma_concat(before, seq![v[j]], row, 0);
                            lemma_single(v[j], row, 0);
                        }
                        assert forall|n: nat| #[trigger] all_leaves_below(clauses.items(), n) == (
                        all_leaves_below(before, n) && leaves_below(v[j], n)) by {
                            lemma_concat(before, seq![v[j]], Seq::empty(), n);
                            lemma_single(v[j], Seq::empty(), n);
                        }
                        lemma_concat(before, seq![v[j]], Seq::empty(), 0);
                        lemma_single(v[j], Seq::empty(), 0);
                    }
                },
            }
            proof {
                seen = seen + 1;
            }
        }
        proof {
            assert(seen == v.len());
            assert(v.take(v.len() as int) =~= v);
            lemma_lists(clauses.items(), Seq::empty(), 0);
        }
        let ghost items = clauses.items();
        assert(forall|row: Seq<bool>| all_leaves_below(v, row.len()) ==> any_holds(items, row) == any_holds(v, row));
        assert(forall|n: nat| all_leaves_below(v, n) ==> all_leaves_below(items, n));
        let r = clauses.extract(nothing_kind, or_kind);
        proof {
            if items.len() == 1 {
                assert(items =~= seq![items[0]]);
                assert forall|row: Seq<bool>| #[trigger] any_holds(items, row) == holds(items[0], row) by {
                    lemma_single(items[0], row, 0);
                }
                assert forall|n: nat| #[trigger] all_leaves_below(items, n) == leaves_below(items[0], n) by {
                    lemma_single(items[0], Seq::empty(), n);
                }
                lemma_single(items[0], Seq::empty(), 0);
            }
            if items.len() == 0 {
                assert(r is Nothing);
            }
            if items.len() >= 2 {
                let vv = choose|vv: Vec<PredicateKind>|
                    vv@ == items && call_ensures(or_kind, (vv,), r);
                assert(r == PredicateKind::Or(vv));
            }
            assert forall|row: Seq<bool>| all_leaves_below(v, row.len()) implies holds(r, row) == any_holds(v, row) by {
                assert(any_holds(items, row) == any_holds(v, row));
                if items.len() == 0 {
                    assert(!any_holds(items, row));
                }
            }
            assert forall|n: nat| all_leaves_below(v, n) implies leaves_below(r, n) by {
                assert(all_leaves_below(items, n));
            }
        }
        r
    }

    /// The predicate's size hint, for the leaf hints `hints` and a map of
    /// `size` entries.
    pub fn size_hint(&self, hints: &Vec<(SizeHint, SizeHint)>, size: usize) -> (h: SizeHint)
        requires
            leaves_below(*self, hints@.len()),
        ensures
            h == hint_of(*self, hints@, size),
        decreases self,
    {
        match self {
            PredicateKind::Index(l) => l.size_hint(hints),
            PredicateKind::And(ps) => {
                proof {
                    lemma_lists(ps@, Seq::empty(), hints@.len());
                }
                let mut upper: Option<usize> = None;
                let mut k: usize = 0;
                assert(ps@.take(0) =~= Seq::<PredicateKind>::empty());
                while k < ps.len()
                    invariant
                        k <= ps@.len(),
                        *self == PredicateKind::And(*ps),
                        forall|j: int| 0 <= j < ps@.len() ==> leaves_below(#[trigger] ps@[j], hints@.len()),
                        upper == and_upper(ps@.take(k as int), hints@, size),
                    decreases ps@.len() - k,
                {
                    proof {
                        assert(decreases_to!(*self => (*self)->And_0));
                        assert(decreases_to!(*ps => ps[k as int]));
                    }
                    let (_, child_upper) = ps[k].size_hint(hints, size);
                    upper = match (upper, child_upper) {
                        (None, None) => None,
                        (Some(x), None) => Some(x),
                        (None, Some(x)) => Some(x),
                        (Some(x), Some(y)) => Some(if x <= y { x } else { y }),
                    };
                    proof {
                        let t = ps@.take(k + 1);
                        assert(t.drop_last() =~= ps@.take(k as int));
                        assert(t.last() == ps@[k as int]);
                    }
                    k = k + 1;
                }
                assert(ps@.take(ps@.len() as int) =~= ps@);
                (0, upper)
            },
            PredicateKind::Or(ps) => {
                proof {
                    lemma_lists(ps@, Seq::empty(), hints@.len());
                }
                let mut lower: usize = 0;
                let mut k: usize = 0;
                assert(ps@.take(0) =~= Seq::<PredicateKind>::empty());
                while k < ps.len()
                    invariant
                        k <= ps@.len(),
                        *self == PredicateKind::Or(*ps),
                        forall|j: int| 0 <= j < ps@.len() ==> leaves_below(#[trigger] ps@[j], hints@.len()),
                        lower == or_lower(ps@.take(k as int), hints@, size),
                    decreases ps@.len() - k,
                {
                    proof {
                        assert(decreases_to!(*self => (*self)->Or_0));
                        assert(decreases_to!(*ps => ps[k as int]));
                    }
                    let (child_lower, _) = ps[k].size_hint(hints, size);
                    if child_lower > lower {
                        lower = child_lower;
                    }
                    proof {
                        let t = ps@.take(k + 1);
                        assert(t.drop_last() =~= ps@.take(k as int));
                        assert(t.last() == ps@[k as int]);
                    }
                    k = k + 1;
                }
                assert(ps@.take(ps@.len() as int) =~= ps@);
                (lower, None)
            },
            PredicateKind::All => (size, Some(size)),
            PredicateKind::Nothing => (0, Some(0)),
        }
    }

    /// Keeps, of `ids`, those of the entries that satisfy the predicate.
    pub fn filter(&self, rows: &Vec<Vec<bool>>, ids: &mut HashSet<usize>)
        requires
            rows_answer(*self, rows_model(rows@)),
            ids_below(old(ids)@, rows@.len()),
        ensures
            final(ids)@ == old(ids)@.filter(|x: usize| holds(*self, rows_model(rows@)[x as int])),
    {
        let ghost rm = rows_model(rows@);
        let ghost s = vstd::std_specs::hash::spec_hash_keys_iter(ids).remaining();
        let mut kept: HashSet<usize> = HashSet::new();
        let ghost mut seen: int = 0;
        for x in it: ids.iter()
            invariant
                it.seq() == s,
                seen == it.index(),
                s.unref().to_set() == ids@,
                rm == rows_model(rows@),
                rows_answer(*self, rm),
                ids_below(ids@, rows@.len()),
                kept@ == s.take(seen).unref().to_set().filter(|y: usize| holds(*self, rm[y as int])),
        {
            assert(s[seen] == x);
            assert(s.unref()[seen] == *x);
            assert(ids@.contains(*x));
            assert(rm[*x as int] == rows@[*x as int]@);
            assert(leaves_below(*self, rm[*x as int].len()));
            let keep = self.evaluate(&rows[*x]);
            if keep {
                kept.insert(*x);
            }
            proof {
                assert(s.take(seen + 1).unref() =~= s.take(seen).unref().push(*x));
                s.take(seen).unref().lemma_push_to_set_commute(*x);
                assert(kept@ =~= s.take(seen + 1).unref().to_set().filter(
                    |y: usize| holds(*self, rm[y as int]),
                ));
                seen = seen + 1;
            }
        }
        proof {
            assert(s.take(seen) =~= s);
        }
        *ids = kept;
    }

    /// Adds to `results` the ids of the entries that satisfy the predicate,
    /// and removes none: a leaf adds its matches, an `and` collects its
    /// first clause apart and adds those of its ids that satisfy the
    /// others, an `or` collects each clause in turn, `All` adds every entry,
    /// and `Nothing` adds none.
    pub fn collect(&self, rows: &Vec<Vec<bool>>, results: &mut HashSet<usize>)
        requires
            ands_nonempty(*self),
            rows_answer(*self, rows_model(rows@)),
        ensures
            final(results)@ == collected(*self, rows_model(rows@), old(results)@),
            final(results)@ == old(results)@.union(matching_ids(*self, rows_model(rows@))),
        decreases self,
    {
        let ghost rm = rows_model(rows@);
        let ghost n = rows@.len();
        match self {
            PredicateKind::Index(l) => {
                proof {
                    assert forall|i: int| 0 <= i < rm.len() implies leaf_num(l.pred) as nat + 1 <= (
                    #[trigger] rm[i]).len() by {
                        assert(leaves_below(*self, rm[i].len()));
                    }
                }
                l.find_matching(rows, results);
            },
            PredicateKind::And(ps) => {
                proof {
                    lemma_nonempty_lists(ps@);
                    assert(decreases_to!(*self => (*self)->And_0));
                    assert(decreases_to!(*ps => ps[0]));
                    assert forall|i: int| 0 <= i < rm.len() implies leaves_below(
                        ps@[0],
                        (#[trigger] rm[i]).len(),
                    ) by {
                        assert(leaves_below(*self, rm[i].len()));
                        lemma_lists(ps@, Seq::empty(), rm[i].len());
                    }
                }
                let mut found: HashSet<usize> = HashSet::new();
                ps[0].collect(rows, &mut found);
                let ghost first = found@;
                assert(ids_below(first, n));
                assert(first.filter(|x: usize| all_hold(ps@.subrange(1, 1), rm[x as int])) =~= first);
                let mut k: usize = 1;
                while k < ps.len()
                    invariant
                        1 <= k <= ps@.len(),
                        *self == PredicateKind::And(*ps),
                        ands_nonempty(*self),
                        rm == rows_model(rows@),
                        n == rows@.len(),
                        rows_answer(*self, rm),
                        first == collected(ps@[0], rm, Set::empty()),
                        ids_below(first, n),
                        found@ == first.filter(|x: usize| all_hold(ps@.subrange(1, k as int), rm[x as int])),
                    decreases ps@.len() - k,
                {
                    proof {
                        lemma_nonempty_lists(ps@);
                        assert forall|i: int| 0 <= i < rm.len() implies leaves_below(
                            ps@[k as int],
                            (#[trigger] rm[i]).len(),
                        ) by {
                            assert(leaves_below(*self, rm[i].len()));
                            lemma_lists(ps@, Seq::empty(), rm[i].len());
                        }
                    }
                    ps[k].filter(rows, &mut found);
                    proof {
                        let sub = ps@.subrange(1, k + 1);
                        assert(sub.drop_last() =~= ps@.subrange(1, k as int));
                        assert(sub.last() == ps@[k as int]);
                        assert(found@ =~= first.filter(|x: usize| all_hold(sub, rm[x as int])));
                    }
                    k = k + 1;
                }
                proof {
                    assert(ps@.subrange(1, ps@.len() as int) =~= ps@.drop_first());
                }
                add_ids(results, &found);
            },
            PredicateKind::Or(ps) => {
                assert(ps@.take(0) =~= Seq::<PredicateKind>::empty());
                let mut k: usize = 0;
                while k < ps.len()
                    invariant
                        k <= ps@.len(),
                        *self == PredicateKind::Or(*ps),
                        ands_nonempty(*self),
                        rm == rows_model(rows@),
                        n == rows@.len(),
                        rows_answer(*self, rm),
                        results@ == collected_seq(ps@.take(k as int), rm, old(results)@),
                    decreases ps@.len() - k,
                {
                    proof {
                        lemma_nonempty_lists(ps@);
                        assert(decreases_to!(*self => (*self)->Or_0));
                        assert(decreases_to!(*ps => ps[k as int]));
                        assert forall|i: int| 0 <= i < rm.len() implies leaves_below(
                            ps@[k as int],
                            (#[trigger] rm[i]).len(),
                        ) by {
                            assert(leaves_below(*self, rm[i].len()));
                            lemma_lists(ps@, Seq::empty(), rm[i].len());
                        }
                    }
                    ps[k].collect(rows, results);
                    proof {
                        let t = ps@.take(k + 1);
                        assert(t.drop_last() =~= ps@.take(k as int));
                        assert(t.last() == ps@[k as int]);
                    }
                    k = k + 1;
                }
                proof {
                    assert(ps@.take(ps@.len() as int) =~= ps@);
                }
            },
            PredicateKind::All => {
                let mut i: usize = 0;
                while i < rows.len()
                    invariant
                        i <= rows@.len(),
                        results@ == old(results)@.union(Set::new(|x: usize| x < i)),
                    decreases rows@.len() - i,
                {
                    results.insert(i);
                    assert(results@ =~= old(results)@.union(Set::new(|x: usize| x < i + 1)));
                    i = i + 1;
                }
                proof {
                    assert(all_ids(rows@.len()) =~= Set::new(|x: usize| x < i));
                }
            },
            PredicateKind::Nothing => {},
        }
        proof {
            lemma_union_like(*self, rm, old(results)@);
        }
    }

    /// Whether an entry whose answers are `row` satisfies the predicate.
    pub fn evaluate(&self, row: &Vec<bool>) -> (b: bool)
        requires
            leaves_below(*self, row@.len()),
        ensures
            b == holds(*self, row@),
        decreases self,
    {
        match self {
            PredicateKind::Index(l) => l.evaluate(row),
            PredicateKind::And(ps) => {
                proof {
                    lemma_lists(ps@, row@, row@.len());
                }
                let mut i: usize = 0;
                while i < ps.len()
                    invariant
                        i <= ps@.len(),
                        forall|j: int| 0 <= j < ps@.len() ==> leaves_below(#[trigger] ps@[j], row@.len()),
                        forall|j: int| 0 <= j < i ==> holds(#[trigger] ps@[j], row@),
                        *self == PredicateKind::And(*ps),
                    decreases ps@.len() - i,
                {
                    proof {
                        assert(decreases_to!(*self => (*self)->And_0));
                        assert(decreases_to!(*ps => ps[i as int]));
                    }
                    if !ps[i].evaluate(row) {
                        proof {
                            lemma_lists(ps@, row@, row@.len());
                        }
                        return false;
                    }
                    i = i + 1;
                }
                proof {
                    lemma_lists(ps@, row@, row@.len());
                }
                true
            },
            PredicateKind::Or(ps) => {
                proof {
                    lemma_lists(ps@, row@, row@.len());
                }
                let mut i: usize = 0;
                while i < ps.len()
                    invariant
                        i <= ps@.len(),
                        forall|j: int| 0 <= j < ps@.len() ==> leaves_below(#[trigger] ps@[j], row@.len()),
                        forall|j: int| 0 <= j < i ==> !holds(#[trigger] ps@[j], row@),
                        *self == PredicateKind::Or(*ps),
                    decreases ps@.len() - i,
                {
                    proof {
                        assert(decreases_to!(*self => (*self)->Or_0));
                        assert(decreases_to!(*ps => ps[i as int]));
                    }
                    if ps[i].evaluate(row) {
                        proof {
                            lemma_lists(ps@, row@, row@.len());
                        }
                        return true;
                    }
                    i = i + 1;
                }
                proof {
                    lemma_lists(ps@, row@, row@.len());
                }
                false
            },
            PredicateKind::All => true,
            PredicateKind::Nothing => false,
        }
    }
}

/// A query on an indexed map, kept in simplified form.
pub struct Predicate {
    pred: PredicateKind,
}

/// The reified predicates of the queries `ps`.
pub open spec fn kinds_of(ps: Seq<Predicate>) -> Seq<PredicateKind> {
    ps.map_values(|p: Predicate| p.kind())
}

impl Predicate {
    /// A query's predicate is simplified.
    #[verifier::type_invariant]
    closed spec fn simplified(self) -> bool {
        normal(self.pred)
    }

    /// The query's reified predicate.
    pub closed spec fn kind(self) -> PredicateKind {
        self.pred
    }

    /// The query that every entry satisfies.
    pub fn all() -> (p: Self)
        ensures
            p.kind() is All,
    {
        Predicate { pred: PredicateKind::All }
    }

    /// The query that no entry satisfies.
    pub fn none() -> (p: Self)
        ensures
            p.kind() is Nothing,
    {
        Predicate { pred: PredicateKind::Nothing }
    }

    /// The reified predicates of `preds`, in order.
    fn into_kinds(preds: Vec<Predicate>) -> (r: Vec<PredicateKind>)
        ensures
            r@ == kinds_of(preds@),
            all_normal(r@),
    {
        let ghost v = preds@;
        let mut r: Vec<PredicateKind> = Vec::new();
        for p in it: preds.into_iter()
            invariant
                it.seq() == v,
                r@ == kinds_of(v.take(it.index() as int)),
                all_normal(r@),
        {
            let ghost j = it.index() as int;
            assert(p == v[j]);
            proof {
                use_type_invariant(&p);
            }
            r.push(p.pred);
            assert(v.take(j + 1) =~= v.take(j).push(v[j]));
            assert(kinds_of(v.take(j + 1)) =~= kinds_of(v.take(j)).push(v[j].kind()));
        }
        assert(v.take(v.len() as int) =~= v);
        r
    }

    /// The query that the entries satisfying every query of `preds`
    /// satisfy.
    pub fn and(preds: Vec<Predicate>) -> (p: Self)
        ensures
            forall|row: Seq<bool>|
                all_leaves_below(kinds_of(preds@), row.len()) ==> holds(p.kind(), row) == all_hold(
                    kinds_of(preds@),
                    row,
                ),
            forall|n: nat| all_leaves_below(kinds_of(preds@), n) ==> leaves_below(p.kind(), n),
            (exists|i: int| 0 <= i < preds@.len() && preds@[i].kind() is Nothing) ==> p.kind() is Nothing,
    {
        let kinds = Self::into_kinds(preds);
        proof {
            if exists|i: int| 0 <= i < preds@.len() && preds@[i].kind() is Nothing {
                let i = choose|i: int| 0 <= i < preds@.len() && preds@[i].kind() is Nothing;
                assert(kinds@[i] is Nothing);
            }
        }
        Predicate { pred: PredicateKind::new_and(kinds) }
    }

    /// The query that the entries satisfying some query of `preds` satisfy.
    pub fn or(preds: Vec<Predicate>) -> (p: Self)
        ensures
            forall|row: Seq<bool>|
                all_leaves_below(kinds_of(preds@), row.len()) ==> holds(p.kind(), row) == any_holds(
                    kinds_of(preds@),
                    row,
                ),
            forall|n: nat| all_leaves_below(kinds_of(preds@), n) ==> leaves_below(p.kind(), n),
            (exists|i: int| 0 <= i < preds@.len() && preds@[i].kind() is All) ==> p.kind() is All,
    {
        let kinds = Self::into_kinds(preds);
        proof {
            if exists|i: int| 0 <= i < preds@.len() && preds@[i].kind() is All {
                let i = choose|i: int| 0 <= i < preds@.len() && preds@[i].kind() is All;
                assert(kinds@[i] is All);
            }
        }
        Predicate { pred: PredicateKind::new_or(kinds) }
    }

    /// The query that the entries not satisfying `pred` satisfy.
    pub fn not(pred: Predicate) -> (p: Self)
        ensures
            negation_of(pred.kind(), p.kind()),
    {
        proof {
            use_type_invariant(&pred);
        }
        Predicate { pred: pred.pred.negate() }
    }

    /// The query of the leaf predicate `leaf`, on an index.
    pub fn index(leaf: usize) -> (p: Self)
        ensures
            p.kind() == PredicateKind::Index(
                IndexPredLeaf { pred: LeafPredType::Index(leaf), negation: IndexNegation::Plain },
            ),
    {
        Predicate {
            pred: PredicateKind::Index(
                IndexPredLeaf { pred: LeafPredType::Index(leaf), negation: IndexNegation::Plain },
            ),
        }
    }

    /// Whether an entry whose answers are `row` satisfies the query.
    pub fn evaluate(&self, row: &Vec<bool>) -> (b: bool)
        requires
            leaves_below(self.kind(), row@.len()),
        ensures
            b == holds(self.kind(), row@),
    {
        self.pred.evaluate(row)
    }

    /// The query's size hint, for the leaf hints `hints` and a map of `size`
    /// entries.
    pub fn size_hint(&self, hints: &Vec<(SizeHint, SizeHint)>, size: usize) -> (h: SizeHint)
        requires
            leaves_below(self.kind(), hints@.len()),
        ensures
            h == hint_of(self.kind(), hints@, size),
    {
        self.pred.size_hint(hints, size)
    }

    /// Adds to `results` the ids the query collects (see
    /// [`PredicateKind::collect`]).
    pub fn collect(&self, rows: &Vec<Vec<bool>>, results: &mut HashSet<usize>)
        requires
            rows_answer(self.kind(), rows_model(rows@)),
        ensures
            final(results)@ == old(results)@.union(matching_ids(self.kind(), rows_model(rows@))),
    {
        proof {
            use_type_invariant(self);
            lemma_normal_ands_nonempty(self.pred);
        }
        self.pred.collect(rows, results);
    }
}

/// The lookup of one entry of a unique index, by its place among the
/// query's leaf predicates.
pub struct UniqueEntry {
    pub leaf: usize,
}

impl UniqueEntry {
    /// The query of the entry.
    pub fn into_predicate(self) -> (p: Predicate)
        ensures
            p.kind() == PredicateKind::Index(
                IndexPredLeaf { pred: LeafPredType::Unique(self.leaf), negation: IndexNegation::Plain },
            ),
    {
        Predicate {
            pred: PredicateKind::Index(
                IndexPredLeaf { pred: LeafPredType::Unique(self.leaf), negation: IndexNegation::Plain },
            ),
        }
    }
}

/// Adds every id of `from` to `ids`.
fn add_ids(ids: &mut HashSet<usize>, from: &HashSet<usize>)
    ensures
        final(ids)@ == old(ids)@.union(from@),
{
    let ghost s = vstd::std_specs::hash::spec_hash_keys_iter(from).remaining();
    let ghost mut seen: int = 0;
    for x in it: from.iter()
        invariant
            it.seq() == s,
            seen == it.index(),
            s.unref().to_set() == from@,
            ids@ == old(ids)@.union(s.take(seen).unref().to_set()),
    {
        assert(s.unref()[seen] == *x);
        ids.insert(*x);
        proof {
            assert(s.take(seen + 1).unref() =~= s.take(seen).unref().push(*x));
            s.take(seen).unref().lemma_push_to_set_commute(*x);
            assert(ids@ =~= old(ids)@.union(s.take(seen + 1).unref().to_set()));
            seen = seen + 1;
        }
    }
    proof {
        assert(s.take(seen) =~= s);
    }
}

} // verus!
