use std::collections::HashSet;

use sciproj::collections::indexed_map::expr::{
    IndexNegation, IndexPredLeaf, LeafPredType, Predicate, PredicateKind, UniqueEntry,
};
use sciproj::collections::indexed_map::fn_ord_map::{ConstFetcher, FnMultiMap, IdentityFetcher};

#[test]
fn removes_right_entry_with_equal_keys() {}

fn rows() -> Vec<Vec<bool>> {
    vec![
        vec![true, false, false],
        vec![false, true, true],
        vec![true, true, false],
        vec![false, false, true],
    ]
}

fn collect(p: &Predicate) -> Vec<usize> {
    let mut results = HashSet::new();
    p.collect(&rows(), &mut results);
    let mut v: Vec<usize> = results.into_iter().collect();
    v.sort();
    v
}

#[test]
fn leaf_queries_collect_their_matches() {
    assert_eq!(collect(&Predicate::index(0)), vec![0, 2]);
    assert_eq!(collect(&Predicate::not(Predicate::index(0))), vec![1, 3]);
    assert_eq!(collect(&UniqueEntry { leaf: 2 }.into_predicate()), vec![1, 3]);
    assert_eq!(collect(&Predicate::all()), vec![0, 1, 2, 3]);
    assert!(collect(&Predicate::none()).is_empty());
}

#[test]
fn and_keeps_what_every_clause_matches() {
    let p = Predicate::and(vec![Predicate::index(0), Predicate::index(1)]);
    assert_eq!(collect(&p), vec![2]);
    for row in rows() {
        assert_eq!(p.evaluate(&row), row[0] && row[1]);
    }
}

#[test]
fn or_gathers_what_some_clause_matches() {
    let p = Predicate::or(vec![Predicate::index(1), Predicate::index(2)]);
    assert_eq!(collect(&p), vec![1, 2, 3]);
}

#[test]
fn not_pushes_negation_to_the_leaves() {
    let p = Predicate::not(Predicate::and(vec![Predicate::index(0), Predicate::index(1)]));
    for row in rows() {
        assert_eq!(p.evaluate(&row), !(row[0] && row[1]));
    }
    assert_eq!(collect(&p), vec![0, 1, 3]);
    let q = Predicate::not(Predicate::not(Predicate::index(2)));
    assert_eq!(collect(&q), collect(&Predicate::index(2)));
}

#[test]
fn builders_simplify() {
    // An `and` with a `Nothing` clause is `Nothing`; `All` clauses drop out.
    assert!(collect(&Predicate::and(vec![Predicate::index(0), Predicate::none()])).is_empty());
    assert_eq!(collect(&Predicate::and(vec![Predicate::all(), Predicate::index(0)])), vec![0, 2]);
    assert_eq!(collect(&Predicate::and(vec![])), vec![0, 1, 2, 3]);
    assert_eq!(collect(&Predicate::or(vec![Predicate::index(0), Predicate::all()])), vec![0, 1, 2, 3]);
    assert!(collect(&Predicate::or(vec![])).is_empty());
    // Nested `and`s are spliced in.
    let nested = Predicate::and(vec![
        Predicate::index(0),
        Predicate::and(vec![Predicate::index(1), Predicate::not(Predicate::index(2))]),
    ]);
    assert_eq!(collect(&nested), vec![2]);
    let hints = vec![((1, Some(2)), (0, None)); 3];
    assert_eq!(nested.size_hint(&hints, 4), (0, Some(2)));
}

#[test]
fn or_after_and_keeps_what_came_before() {
    // An `and` inside an `or` only adds its own matches.
    let p = Predicate::or(vec![
        Predicate::index(0),
        Predicate::and(vec![Predicate::index(1), Predicate::index(2)]),
    ]);
    assert_eq!(collect(&p), vec![0, 1, 2]);
    assert!(p.evaluate(&rows()[0]));
}

#[test]
fn collecting_only_adds_ids() {
    let mut results: HashSet<usize> = HashSet::new();
    results.insert(3);
    results.insert(99);
    Predicate::none().collect(&rows(), &mut results);
    assert_eq!(results.len(), 2);
    assert!(results.contains(&3));
    Predicate::and(vec![Predicate::index(0), Predicate::index(1)]).collect(&rows(), &mut results);
    let mut v: Vec<usize> = results.into_iter().collect();
    v.sort();
    assert_eq!(v, vec![2, 3, 99]);
}

#[test]
fn size_hints_combine_bounds() {
    let hints = vec![((1, Some(2)), (0, None)), ((3, Some(5)), (0, Some(4))), ((0, None), (2, None))];
    let leaf = |n: usize, negation: IndexNegation| {
        PredicateKind::Index(IndexPredLeaf { pred: LeafPredType::Index(n), negation })
    };
    let and = PredicateKind::And(vec![leaf(0, IndexNegation::Plain), leaf(1, IndexNegation::Negated)]);
    assert_eq!(and.size_hint(&hints, 10), (0, Some(2)));
    let or = PredicateKind::Or(vec![leaf(1, IndexNegation::Plain), leaf(2, IndexNegation::Negated)]);
    assert_eq!(or.size_hint(&hints, 10), (3, None));
    assert_eq!(PredicateKind::All.size_hint(&hints, 10), (10, Some(10)));
    assert_eq!(PredicateKind::Nothing.size_hint(&hints, 10), (0, Some(0)));
    let unique = PredicateKind::Index(IndexPredLeaf { pred: LeafPredType::Unique(0), negation: IndexNegation::Plain });
    assert_eq!(unique.size_hint(&hints, 10), (0, Some(1)));
}

#[test]
fn test_fn_multi_map_insert_singleton() {
    let mut map = FnMultiMap::new();
    map.insert(&IdentityFetcher, 1);
    let items = map.get(&IdentityFetcher, 1);
    assert_eq!(items, vec![1]);
}

#[test]
fn test_fn_multi_map() {
    let mut map = FnMultiMap::new();
    map.insert(&IdentityFetcher, 1);
    map.insert(&IdentityFetcher, 2);
    map.insert(&IdentityFetcher, 3);
    assert_eq!(map.get(&IdentityFetcher, 1).len(), 1);
    assert_eq!(map.get(&IdentityFetcher, 2).len(), 1);
    assert_eq!(map.get(&IdentityFetcher, 3).len(), 1);
    assert_eq!(map.get(&IdentityFetcher, 4).len(), 0);
}

#[test]
fn removes_explicit_entry_with_equal_keys() {
    // Check that we remove the correct entry, even when the key for
    // multiple entries is the same.
    let mut map = FnMultiMap::new();
    let const_fn = ConstFetcher(1);
    map.insert(&const_fn, 1);
    map.insert(&const_fn, 2);
    map.insert(&const_fn, 3);
    assert_eq!(map.remove(&const_fn, 2), Some(2));
    assert_eq!(map.get(&const_fn, 1), vec![1, 3]);
}

#[test]
fn multi_map_keeps_items_sorted_once() {
    let mut map = FnMultiMap::new();
    let fetcher = ConstFetcher(7);
    assert_eq!(map.insert(&fetcher, 5), 5);
    map.insert(&fetcher, 2);
    map.insert(&fetcher, 5);
    map.insert(&fetcher, 9);
    assert_eq!(map.get(&fetcher, 7), vec![2, 5, 9]);
    assert!(map.get(&fetcher, 1).is_empty());
    assert!(map.contains(&fetcher, 9));
    assert!(!map.contains(&fetcher, 4));
    assert_eq!(map.remove(&fetcher, 4), None);
    assert_eq!(map.remove(&fetcher, 9), Some(9));
    assert!(!map.contains(&fetcher, 9));
}

#[test]
fn remove_undoes_insert() {
    let fetcher = ConstFetcher(0);
    let mut map = FnMultiMap::new();
    map.insert(&fetcher, 1);
    map.insert(&fetcher, 3);
    let before = map.get(&fetcher, 0);
    map.insert(&fetcher, 2);
    assert_eq!(map.get(&fetcher, 0), vec![1, 2, 3]);
    assert_eq!(map.remove(&fetcher, 2), Some(2));
    assert_eq!(map.get(&fetcher, 0), before);
}

#[test]
fn size_hints_bound_what_is_collected() {
    // The leaf hints bound each leaf's matches in `rows()`: leaf 0 matches
    // two entries (two not), leaf 1 two (two not), leaf 2 two (two not).
    let hints = vec![((2, Some(2)), (1, Some(3))), ((1, Some(4)), (0, None)), ((2, Some(2)), (2, Some(2)))];
    let queries = vec![
        Predicate::and(vec![Predicate::index(0), Predicate::index(1)]),
        Predicate::or(vec![Predicate::index(1), Predicate::not(Predicate::index(2))]),
        Predicate::not(Predicate::or(vec![Predicate::index(0), Predicate::index(2)])),
        Predicate::all(),
        Predicate::none(),
    ];
    for q in &queries {
        let (lower, upper) = q.size_hint(&hints, 4);
        let n = collect(q).len();
        assert!(lower <= n);
        if let Some(u) = upper {
            assert!(n <= u);
        }
    }
}
