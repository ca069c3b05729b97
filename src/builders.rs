//! Builders that assemble compound queries while removing redundant
//! structure: no combinator over zero or one query, and no score transform
//! that changes nothing.

use crate::query::{Query, QueryParseError, SCORE_ONE};
use vstd::prelude::*;

verus! {

/// The conjunction of `queries`: `MatchNone` for none, the query itself for
/// one, and otherwise a `Bool` whose `must` clauses are the queries in order.
pub fn build_and_query(queries: Vec<Query>) -> (r: Result<Query, QueryParseError>)
    ensures
        r is Ok,
        queries@.len() == 0 ==> r.unwrap() is MatchNone,
        queries@.len() == 1 ==> r.unwrap() == queries@[0],
        queries@.len() >= 2 ==> match r.unwrap() {
            Query::Bool { must, must_not, should, filter, minimum_should_match, boost } => must@
                == queries@ && must_not@.len() == 0 && should@.len() == 0 && filter@.len() == 0
                && minimum_should_match == 0 && boost == SCORE_ONE,
            _ => false,
        },
{
    let mut queries = queries;
    if queries.len() == 0 {
        Ok(Query::MatchNone)
    } else if queries.len() == 1 {
        let q = queries.pop().unwrap();
        Ok(q)
    } else {
        Ok(
            Query::Bool {
                must: queries,
                must_not: Vec::new(),
                should: Vec::new(),
                filter: Vec::new(),
                minimum_should_match: 0,
                boost: SCORE_ONE,
            },
        )
    }
}

/// The disjunction of `queries`: `MatchNone` for none, the query itself for
/// one, and otherwise a `Bool` whose `should` clauses are the queries in
/// order, at least one of which must match.
pub fn build_or_query(queries: Vec<Query>) -> (r: Result<Query, QueryParseError>)
    ensures
        r is Ok,
        queries@.len() == 0 ==> r.unwrap() is MatchNone,
        queries@.len() == 1 ==> r.unwrap() == queries@[0],
        queries@.len() >= 2 ==> match r.unwrap() {
            Query::Bool { must, must_not, should, filter, minimum_should_match, boost } => should@
                == queries@ && must@.len() == 0 && must_not@.len() == 0 && filter@.len() == 0
                && minimum_should_match == 1 && boost == SCORE_ONE,
            _ => false,
        },
{
    let mut queries = queries;
    if queries.len() == 0 {
        Ok(Query::MatchNone)
    } else if queries.len() == 1 {
        let q = queries.pop().unwrap();
        Ok(q)
    } else {
        Ok(
            Query::Bool {
                must: Vec::new(),
                must_not: Vec::new(),
                should: queries,
                filter: Vec::new(),
                minimum_should_match: 1,
                boost: SCORE_ONE,
            },
        )
    }
}

/// The best-match disjunction of `queries`: `MatchNone` for none, the query
/// itself for one, and otherwise a `DisjunctionMax` over the queries in order.
pub fn build_disjunction_max_query(queries: Vec<Query>) -> (r: Result<Query, QueryParseError>)
    ensures
        r is Ok,
        queries@.len() == 0 ==> r.unwrap() is MatchNone,
        queries@.len() == 1 ==> r.unwrap() == queries@[0],
        queries@.len() >= 2 ==> match r.unwrap() {
            Query::DisjunctionMax { queries: qs, boost } => qs@ == queries@ && boost == SCORE_ONE,
            _ => false,
        },
{
    let mut queries = queries;
    if queries.len() == 0 {
        Ok(Query::MatchNone)
    } else if queries.len() == 1 {
        let q = queries.pop().unwrap();
        Ok(q)
    } else {
        Ok(Query::DisjunctionMax { queries, boost: SCORE_ONE })
    }
}

/// `query` with its score transformed to `score * mul + add` (fixed-point);
/// the query itself where the transform is the identity.
pub fn build_score_query(query: Query, mul: u64, add: u64) -> (r: Query)
    ensures
        mul == SCORE_ONE && add == 0 ==> r == query,
        !(mul == SCORE_ONE && add == 0) ==> r == (Query::BoostScore {
            query: Box::new(query),
            mul,
            add,
        }),
{
    if mul == SCORE_ONE && add == 0 {
        return query;
    }
    Query::BoostScore { query: Box::new(query), mul, add }
}

} // verus!
