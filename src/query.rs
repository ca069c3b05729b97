//! The query tree, its builders, and the evaluator that decides whether a
//! query matches a document and what score it gives.
//!
//! Boosts and scores are fixed-point numbers in thousandths (`SCORE_ONE` is
//! 1.0). Score arithmetic rounds products down and saturates at `u64::MAX`.

use crate::analysis::string_views;
use crate::document::{doc_view, same_text, Document};
use crate::value::{Value, ValueView};
use vstd::prelude::*;
use vstd::string::*;

verus! {

broadcast use vstd::seq::axiom_seq_index_decreases, vstd::std_specs::vec::axiom_vec_index_decreases;

/// The fixed-point representation of 1.0.
pub const SCORE_ONE: u64 = 1000;

/// How a term query compares its term with a field's terms.
#[derive(Clone, Copy, Debug, PartialEq, Eq, Structural)]
pub enum TermMatcher {
    Exact,
    Prefix,
}

/// A query. Every variant but `MatchNone` and `BoostScore` carries a boost
/// that multiplies its score.
#[derive(Debug, PartialEq)]
pub enum Query {
    MatchAll { boost: u64 },
    MatchNone,
    MatchTerm { field: String, term: String, matcher: TermMatcher, boost: u64 },
    Bool {
        must: Vec<Query>,
        must_not: Vec<Query>,
        should: Vec<Query>,
        filter: Vec<Query>,
        minimum_should_match: u64,
        boost: u64,
    },
    DisjunctionMax { queries: Vec<Query>, boost: u64 },
    BoostScore { query: Box<Query>, mul: u64, add: u64 },
}

/// Why a query could not be built.
#[derive(Clone, Copy, Debug, PartialEq, Eq, Structural)]
pub enum QueryParseError {
    /// The JSON is not shaped like a query.
    Malformed,
    /// The query type is not one this library knows.
    UnknownQueryType,
    /// A number that must be a non-negative integer is not one.
    InvalidNumber,
}

/// The value of the first field named `name`.
pub open spec fn field_value(doc: Seq<(Seq<char>, ValueView)>, name: Seq<char>) -> Option<ValueView>
    decreases doc.len(),
{
    if doc.len() == 0 {
        None
    } else if doc[0].0 == name {
        Some(doc[0].1)
    } else {
        field_value(doc.drop_first(), name)
    }
}

pub open spec fn is_prefix(p: Seq<char>, s: Seq<char>) -> bool {
    p.len() <= s.len() && s.subrange(0, p.len() as int) == p
}

pub open spec fn term_hits(t: Seq<char>, term: Seq<char>, matcher: TermMatcher) -> bool {
    match matcher {
        TermMatcher::Exact => t == term,
        TermMatcher::Prefix => is_prefix(term, t),
    }
}

pub open spec fn any_term_hits(ts: Seq<Seq<char>>, term: Seq<char>, matcher: TermMatcher) -> bool {
    exists|i: int| 0 <= i < ts.len() && term_hits(#[trigger] ts[i], term, matcher)
}

/// Whether one of a field value's terms matches: the terms of a token
/// vector, or a string as a single term. Other values have no terms.
pub open spec fn value_hits(v: ValueView, term: Seq<char>, matcher: TermMatcher) -> bool {
    match v {
        ValueView::TokenVector(ts) => any_term_hits(ts, term, matcher),
        ValueView::String(s) => term_hits(s, term, matcher),
        _ => false,
    }
}

/// Whether a query matches a document.
pub open spec fn query_matches(q: Query, doc: Seq<(Seq<char>, ValueView)>) -> bool
    decreases q, 0nat,
{
    match q {
        Query::MatchAll { .. } => true,
        Query::MatchNone => false,
        Query::MatchTerm { field, term, matcher, .. } => match field_value(doc, field@) {
            Some(v) => value_hits(v, term@, matcher),
            None => false,
        },
        Query::Bool { must, must_not, should, filter, minimum_should_match, .. } => {
            &&& count_matching(filter@, doc, filter@.len() as int) == filter@.len()
            &&& count_matching(must@, doc, must@.len() as int) == must@.len()
            &&& count_matching(must_not@, doc, must_not@.len() as int) == 0
            &&& (must@.len() > 0 || filter@.len() > 0 || count_matching(
                should@,
                doc,
                should@.len() as int,
            ) >= minimum_should_match)
        },
        Query::DisjunctionMax { queries, .. } => count_matching(
            queries@,
            doc,
            queries@.len() as int,
        ) > 0,
        Query::BoostScore { query, .. } => query_matches(*query, doc),
    }
}

/// How many of the first `n` queries match.
pub open spec fn count_matching(qs: Seq<Query>, doc: Seq<(Seq<char>, ValueView)>, n: int) -> nat
    decreases qs, n,
{
    if n <= 0 || n > qs.len() {
        0
    } else {
        count_matching(qs, doc, n - 1) + if query_matches(qs[n - 1], doc) {
            1nat
        } else {
            0nat
        }
    }
}

/// Saturation at the largest score.
pub open spec fn sat(x: int) -> nat {
    if x > u64::MAX {
        u64::MAX as nat
    } else if x < 0 {
        0
    } else {
        x as nat
    }
}

/// A score multiplied by a fixed-point factor.
pub open spec fn scaled(s: nat, factor: u64) -> nat {
    sat((s * factor) / (SCORE_ONE as int))
}

/// The score a query gives a document it matches.
pub open spec fn query_score(q: Query, doc: Seq<(Seq<char>, ValueView)>) -> nat
    decreases q, 0nat,
{
    match q {
        Query::MatchAll { boost } => boost as nat,
        Query::MatchNone => 0,
        Query::MatchTerm { boost, .. } => boost as nat,
        Query::Bool { must, should, boost, .. } => scaled(
            sat(
                sum_matching(must@, doc, must@.len() as int) + sum_matching(
                    should@,
                    doc,
                    should@.len() as int,
                ) as int,
            ),
            boost,
        ),
        Query::DisjunctionMax { queries, boost } => scaled(
            max_matching(queries@, doc, queries@.len() as int),
            boost,
        ),
        Query::BoostScore { query, mul, add } => sat(
            scaled(query_score(*query, doc), mul) + add as int,
        ),
    }
}

/// The saturating sum of the scores of those of the first `n` queries that
/// match.
pub open spec fn sum_matching(qs: Seq<Query>, doc: Seq<(Seq<char>, ValueView)>, n: int) -> nat
    decreases qs, n,
{
    if n <= 0 || n > qs.len() {
        0
    } else if query_matches(qs[n - 1], doc) {
        sat(sum_matching(qs, doc, n - 1) + query_score(qs[n - 1], doc) as int)
    } else {
        sum_matching(qs, doc, n - 1)
    }
}

/// The largest score of those of the first `n` queries that match.
pub open spec fn max_matching(qs: Seq<Query>, doc: Seq<(Seq<char>, ValueView)>, n: int) -> nat
    decreases qs, n,
{
    if n <= 0 || n > qs.len() {
        0
    } else if query_matches(qs[n - 1], doc) && query_score(qs[n - 1], doc) > max_matching(
        qs,
        doc,
        n - 1,
    ) {
        query_score(qs[n - 1], doc)
    } else {
        max_matching(qs, doc, n - 1)
    }
}


impl Document {
    /// The value of the first field named `name`.
    pub fn get(&self, name: &str) -> (r: Option<&Value>)
        ensures
            match r {
                Some(v) => field_value(doc_view(self.fields@), name@) == Some(v@),
                None => field_value(doc_view(self.fields@), name@) is None,
            },
    {
        let ghost dv = doc_view(self.fields@);
        let mut i: usize = 0;
        assert(dv.subrange(0, dv.len() as int) =~= dv);
        while i < self.fields.len()
            invariant
                i <= self.fields.len(),
                dv == doc_view(self.fields@),
                field_value(dv, name@) == field_value(dv.subrange(i as int, dv.len() as int), name@),
            decreases self.fields.len() - i,
        {
            assert(dv.subrange(i as int, dv.len() as int).drop_first() =~= dv.subrange(
                i + 1,
                dv.len() as int,
            ));
            if same_text(self.fields[i].0.as_str(), name) {
                return Some(&self.fields[i].1);
            }
            i = i + 1;
        }
        None
    }
}

/// Whether `p` is a prefix of `s`.
pub fn starts_with(s: &str, p: &str) -> (r: bool)
    ensures
        r == is_prefix(p@, s@),
{
    let pl = p.unicode_len();
    let sl = s.unicode_len();
    if pl > sl {
        false
    } else {
        same_text(s.substring_char(0, pl), p)
    }
}

fn term_hits_exec(t: &str, term: &str, matcher: TermMatcher) -> (r: bool)
    ensures
        r == term_hits(t@, term@, matcher),
{
    match matcher {
        TermMatcher::Exact => same_text(t, term),
        TermMatcher::Prefix => starts_with(t, term),
    }
}

fn value_hits_exec(v: &Value, term: &str, matcher: TermMatcher) -> (r: bool)
    ensures
        r == value_hits(v@, term@, matcher),
{
    match v {
        Value::TokenVector(ts) => {
            let ghost tv = string_views(ts@);
            let mut i: usize = 0;
            while i < ts.len()
                invariant
                    i <= ts.len(),
                    tv == string_views(ts@),
                    v@ == ValueView::TokenVector(tv),
                    forall|k: int| 0 <= k < i ==> !term_hits(#[trigger] tv[k], term@, matcher),
                decreases ts.len() - i,
            {
                if term_hits_exec(ts[i].as_str(), term, matcher) {
                    assert(tv[i as int] == ts@[i as int]@);
                    assert(term_hits(tv[i as int], term@, matcher));
                    assert(any_term_hits(tv, term@, matcher));
                    return true;
                }
                i = i + 1;
            }
            false
        },
        Value::String(s) => term_hits_exec(s.as_str(), term, matcher),
        _ => false,
    }
}

/// A score multiplied by a fixed-point factor, rounded down and saturated.
pub fn scale(s: u64, factor: u64) -> (r: u64)
    ensures
        r == scaled(s as nat, factor),
{
    let a = s as u128;
    let b = factor as u128;
    assert(a * b <= u64::MAX * u64::MAX) by (nonlinear_arith)
        requires
            a <= u64::MAX,
            b <= u64::MAX,
    ;
    let p = a * b / 1000;
    if p > u64::MAX as u128 {
        u64::MAX
    } else {
        p as u64
    }
}

/// The saturating sum of two scores.
pub fn add_scores(a: u64, b: u64) -> (r: u64)
    ensures
        r == sat(a + b),
{
    if a > u64::MAX - b {
        u64::MAX
    } else {
        a + b
    }
}

fn count_matching_exec(qs: &Vec<Query>, doc: &Document) -> (r: usize)
    ensures
        r == count_matching(qs@, doc_view(doc.fields@), qs@.len() as int),
    decreases qs, 1nat,
{
    let mut c: usize = 0;
    let mut i: usize = 0;
    while i < qs.len()
        invariant
            i <= qs.len(),
            c <= i,
            c == count_matching(qs@, doc_view(doc.fields@), i as int),
        decreases qs.len() - i,
    {
        if qs[i].matches(doc) {
            c = c + 1;
        }
        i = i + 1;
    }
    c
}

fn sum_matching_exec(qs: &Vec<Query>, doc: &Document) -> (r: u64)
    ensures
        r == sum_matching(qs@, doc_view(doc.fields@), qs@.len() as int),
    decreases qs, 1nat,
{
    let mut total: u64 = 0;
    let mut i: usize = 0;
    while i < qs.len()
        invariant
            i <= qs.len(),
            total == sum_matching(qs@, doc_view(doc.fields@), i as int),
        decreases qs.len() - i,
    {
        if qs[i].matches(doc) {
            let s = qs[i].score(doc);
            total = add_scores(total, s);
        }
        i = i + 1;
    }
    total
}

fn max_matching_exec(qs: &Vec<Query>, doc: &Document) -> (r: u64)
    ensures
        r == max_matching(qs@, doc_view(doc.fields@), qs@.len() as int),
    decreases qs, 1nat,
{
    let mut best: u64 = 0;
    let mut i: usize = 0;
    while i < qs.len()
        invariant
            i <= qs.len(),
            best == max_matching(qs@, doc_view(doc.fields@), i as int),
        decreases qs.len() - i,
    {
        if qs[i].matches(doc) {
            let s = qs[i].score(doc);
            if s > best {
                best = s;
            }
        }
        i = i + 1;
    }
    best
}

impl Query {
    /// Whether this query matches `doc` (see `query_matches`).
    pub fn matches(&self, doc: &Document) -> (r: bool)
        ensures
            r == query_matches(*self, doc_view(doc.fields@)),
        decreases self, 0nat,
    {
        match self {
            Query::MatchAll { .. } => true,
            Query::MatchNone => false,
            Query::MatchTerm { field, term, matcher, .. } => match doc.get(field.as_str()) {
                Some(v) => value_hits_exec(v, term.as_str(), *matcher),
                None => false,
            },
            Query::Bool { must, must_not, should, filter, minimum_should_match, .. } => {
                if count_matching_exec(filter, doc) != filter.len() {
                    return false;
                }
                if count_matching_exec(must, doc) != must.len() {
                    return false;
                }
                if count_matching_exec(must_not, doc) != 0 {
                    return false;
                }
                if must.len() > 0 || filter.len() > 0 {
                    return true;
                }
                count_matching_exec(should, doc) as u64 >= *minimum_should_match
            },
            Query::DisjunctionMax { queries, .. } => count_matching_exec(queries, doc) > 0,
            Query::BoostScore { query, .. } => query.matches(doc),
        }
    }

    /// The score this query gives `doc` (see `query_score`); meaningful
    /// where the query matches.
    pub fn score(&self, doc: &Document) -> (r: u64)
        ensures
            r == query_score(*self, doc_view(doc.fields@)),
        decreases self, 0nat,
    {
        match self {
            Query::MatchAll { boost } => *boost,
            Query::MatchNone => 0,
            Query::MatchTerm { boost, .. } => *boost,
            Query::Bool { must, should, boost, .. } => {
                let a = sum_matching_exec(must, doc);
                let b = sum_matching_exec(should, doc);
                scale(add_scores(a, b), *boost)
            },
            Query::DisjunctionMax { queries, boost } => scale(max_matching_exec(queries, doc), *boost),
            Query::BoostScore { query, mul, add } => add_scores(scale(query.score(doc), *mul), *add),
        }
    }
}

} // verus!
