use rusticsearch::builders::{build_and_query, build_disjunction_max_query, build_or_query, build_score_query};
use rusticsearch::document::Document;
use rusticsearch::query::{add_scores, scale, starts_with, Query, TermMatcher, SCORE_ONE};
use rusticsearch::value::Value;

fn s(x: &str) -> String {
    x.to_string()
}

fn doc(terms: &[&str]) -> Document {
    Document {
        fields: vec![
            (s("title"), Value::TokenVector(terms.iter().map(|t| t.to_string()).collect())),
            (s("kind"), Value::String(s("book"))),
            (s("count"), Value::I64(3)),
        ],
    }
}

fn term(field: &str, t: &str, boost: u64) -> Query {
    Query::MatchTerm { field: s(field), term: s(t), matcher: TermMatcher::Exact, boost }
}

fn prefix(field: &str, t: &str) -> Query {
    Query::MatchTerm { field: s(field), term: s(t), matcher: TermMatcher::Prefix, boost: SCORE_ONE }
}

fn should_bool(should: Vec<Query>, minimum_should_match: u64) -> Query {
    Query::Bool { must: vec![], must_not: vec![], should, filter: vec![], minimum_should_match, boost: SCORE_ONE }
}

#[test]
fn and_builder_normalizes() {
    assert_eq!(build_and_query(vec![]), Ok(Query::MatchNone));
    assert_eq!(build_and_query(vec![term("a", "x", 1000)]), Ok(term("a", "x", 1000)));
    let both = build_and_query(vec![term("a", "x", 1000), term("b", "y", 1000)]).unwrap();
    assert_eq!(
        both,
        Query::Bool {
            must: vec![term("a", "x", 1000), term("b", "y", 1000)],
            must_not: vec![],
            should: vec![],
            filter: vec![],
            minimum_should_match: 0,
            boost: SCORE_ONE,
        }
    );
}

#[test]
fn or_builder_normalizes() {
    assert_eq!(build_or_query(vec![]), Ok(Query::MatchNone));
    assert_eq!(build_or_query(vec![term("a", "x", 1000)]), Ok(term("a", "x", 1000)));
    let both = build_or_query(vec![term("a", "x", 1000), term("b", "y", 1000)]).unwrap();
    assert_eq!(both, should_bool(vec![term("a", "x", 1000), term("b", "y", 1000)], 1));
}

#[test]
fn disjunction_max_builder_normalizes() {
    assert_eq!(build_disjunction_max_query(vec![]), Ok(Query::MatchNone));
    assert_eq!(build_disjunction_max_query(vec![Query::MatchAll { boost: 5 }]), Ok(Query::MatchAll { boost: 5 }));
    assert_eq!(
        build_disjunction_max_query(vec![Query::MatchAll { boost: 5 }, Query::MatchNone]),
        Ok(Query::DisjunctionMax { queries: vec![Query::MatchAll { boost: 5 }, Query::MatchNone], boost: SCORE_ONE })
    );
}

#[test]
fn score_builder_elides_identity() {
    assert_eq!(build_score_query(Query::MatchNone, SCORE_ONE, 0), Query::MatchNone);
    assert_eq!(
        build_score_query(Query::MatchNone, 2000, 0),
        Query::BoostScore { query: Box::new(Query::MatchNone), mul: 2000, add: 0 }
    );
    assert_eq!(
        build_score_query(Query::MatchNone, SCORE_ONE, 1),
        Query::BoostScore { query: Box::new(Query::MatchNone), mul: SCORE_ONE, add: 1 }
    );
}

#[test]
fn term_matching() {
    let d = doc(&["hello", "world"]);
    assert!(term("title", "hello", 1000).matches(&d));
    assert!(!term("title", "hell", 1000).matches(&d));
    assert!(prefix("title", "hell").matches(&d));
    assert!(prefix("title", "").matches(&d));
    assert!(!prefix("title", "worlds").matches(&d));
    assert!(term("kind", "book", 1000).matches(&d));
    assert!(prefix("kind", "bo").matches(&d));
    assert!(!term("count", "3", 1000).matches(&d));
    assert!(!term("missing", "hello", 1000).matches(&d));
    assert!(Query::MatchAll { boost: 1000 }.matches(&d));
    assert!(!Query::MatchNone.matches(&d));
}

#[test]
fn bool_minimum_should_match() {
    let d = doc(&["a", "b"]);
    let clauses = || vec![term("title", "a", 1000), term("title", "b", 1000), term("title", "c", 1000)];
    assert!(should_bool(clauses(), 2).matches(&d));
    assert!(!should_bool(clauses(), 3).matches(&d));
}

#[test]
fn bool_must_filter_must_not() {
    let d = doc(&["a", "b"]);
    let q = Query::Bool {
        must: vec![term("title", "a", 1000)],
        must_not: vec![term("title", "z", 1000)],
        should: vec![term("title", "c", 1000)],
        filter: vec![term("kind", "book", 1000)],
        minimum_should_match: 5,
        boost: 2000,
    };
    assert!(q.matches(&d));
    assert_eq!(q.score(&d), 2000);
    let excluded = Query::Bool {
        must: vec![term("title", "a", 1000)],
        must_not: vec![term("title", "b", 1000)],
        should: vec![],
        filter: vec![],
        minimum_should_match: 0,
        boost: 1000,
    };
    assert!(!excluded.matches(&d));
    let filtered_out = Query::Bool {
        must: vec![],
        must_not: vec![],
        should: vec![term("title", "a", 1000)],
        filter: vec![term("kind", "film", 1000)],
        minimum_should_match: 1,
        boost: 1000,
    };
    assert!(!filtered_out.matches(&d));
}

#[test]
fn bool_score_sums_matching_clauses() {
    let d = doc(&["a", "b"]);
    let q = Query::Bool {
        must: vec![term("title", "a", 500)],
        must_not: vec![],
        should: vec![term("title", "b", 250), term("title", "c", 4000)],
        filter: vec![term("kind", "book", 9000)],
        minimum_should_match: 0,
        boost: 2000,
    };
    assert_eq!(q.score(&d), 1500);
}

#[test]
fn disjunction_max_takes_best_score() {
    let d = doc(&["a", "b"]);
    let q = Query::DisjunctionMax { queries: vec![term("title", "a", 500), term("title", "b", 900)], boost: SCORE_ONE };
    assert!(q.matches(&d));
    assert_eq!(q.score(&d), 900);
    let none = Query::DisjunctionMax { queries: vec![term("title", "x", 500)], boost: SCORE_ONE };
    assert!(!none.matches(&d));
}

#[test]
fn boost_score_transforms() {
    let d = doc(&["a"]);
    let q = Query::BoostScore { query: Box::new(term("title", "a", 1500)), mul: 2000, add: 250 };
    assert!(q.matches(&d));
    assert_eq!(q.score(&d), 3250);
}

#[test]
fn fixed_point_arithmetic() {
    assert_eq!(scale(1500, 333), 499);
    assert_eq!(scale(u64::MAX, 2000), u64::MAX);
    assert_eq!(scale(7, 0), 0);
    assert_eq!(add_scores(u64::MAX - 1, 5), u64::MAX);
    assert_eq!(add_scores(2, 3), 5);
}

#[test]
fn prefix_check() {
    assert!(starts_with("café", "caf"));
    assert!(!starts_with("ca", "cat"));
    assert!(starts_with("", ""));
}
