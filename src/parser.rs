//! The JSON query language: an object with one member naming the query
//! type, whose value holds that query's parameters.
//!
//! - `{"match_all": {"boost"?: n}}` and `{"match_none": {}}`
//! - `{"term": {field: text}}` or `{"term": {field: {"value": text, "boost"?: n}}}`,
//!   and `prefix` in the same shape
//! - `{"bool": {"must"?, "must_not"?, "should"?, "filter"?, "minimum_should_match"?: n, "boost"?: n}}`,
//!   where each clause list is one query or an array of queries
//! - `{"dis_max": {"queries": [...], "boost"?: n}}`
//!
//! A boost is a non-negative number, read in thousandths of `SCORE_ONE`
//! (rounded down).

use crate::builders::{build_disjunction_max_query, build_score_query};
use crate::document::same_text;
use crate::query::{query_matches, Query, QueryParseError, TermMatcher, SCORE_ONE};
use crate::value::Json;
use vstd::prelude::*;

verus! {

broadcast use vstd::seq::axiom_seq_index_decreases, vstd::std_specs::vec::axiom_vec_index_decreases;

/// The value of the first member named `key`.
pub open spec fn member(ms: Seq<(String, Json)>, key: Seq<char>) -> Option<Json>
    decreases ms.len(),
{
    if ms.len() == 0 {
        None
    } else if ms[0].0@ == key {
        Some(ms[0].1)
    } else {
        member(ms.drop_first(), key)
    }
}

/// A non-negative integer that fits a `u64`.
pub open spec fn natural(j: Json) -> Option<u64> {
    match j {
        Json::U64(n) => Some(n),
        Json::I64(n) => if n >= 0 {
            Some(n as u64)
        } else {
            None
        },
        _ => None,
    }
}

/// Two to the power `e`.
pub open spec fn two_to(e: nat) -> nat
    decreases e,
{
    if e == 0 {
        1
    } else {
        2 * two_to((e - 1) as nat)
    }
}

/// A non-negative finite double, given by its IEEE-754 bit pattern, in
/// thousandths, rounded down; `None` for a negative number, an infinity or
/// NaN. Subnormal numbers are below a thousandth.
pub open spec fn float_thousandths(bits: u64) -> Option<nat> {
    let exp = ((bits >> 52u64) & 0x7ffu64) as nat;
    let m = ((bits & 0xfffffffffffffu64) as nat) + 0x10000000000000nat;
    if (bits >> 63u64) != 0 || exp == 0x7ff {
        None
    } else if exp == 0 {
        Some(0)
    } else if exp >= 1075 {
        Some(m * 1000 * two_to((exp - 1075) as nat))
    } else {
        Some((((m * 1000) as int) / (two_to((1075 - exp) as nat) as int)) as nat)
    }
}

proof fn lemma_two_to_positive(e: nat)
    ensures
        two_to(e) >= 1,
    decreases e,
{
    if e > 0 {
        lemma_two_to_positive((e - 1) as nat);
    }
}

/// Reads a float boost (see `float_thousandths`).
fn float_boost(bits: u64) -> (r: Option<u64>)
    ensures
        r == match float_thousandths(bits) {
            Some(t) => if t <= u64::MAX {
                Some(t as u64)
            } else {
                None
            },
            None => None,
        },
{
    let sign = bits >> 63u64;
    let exp = (bits >> 52u64) & 0x7ffu64;
    let frac = bits & 0xfffffffffffffu64;
    if sign != 0 || exp == 0x7ffu64 {
        return None;
    }
    if exp == 0 {
        return Some(0);
    }
    assert(frac <= 0xfffffffffffffu64) by (bit_vector)
        requires
            frac == bits & 0xfffffffffffffu64,
    ;
    assert(exp <= 0x7ffu64) by (bit_vector)
        requires
            exp == (bits >> 52u64) & 0x7ffu64,
    ;
    let base: u64 = (frac + 0x10000000000000u64) * 1000;
    let ghost b = base as nat;
    if exp >= 1075 {
        let e = exp - 1075;
        let mut v: u64 = base;
        let mut j: u64 = 0;
        assert(two_to(0) == 1);
        assert(b * 1 == b);
        assert(float_thousandths(bits) == Some(b * two_to(e as nat)));
        while j < e
            invariant
                j <= e,
                float_thousandths(bits) == Some(b * two_to(e as nat)),
                e == exp - 1075,
                v as nat == b * two_to(j as nat),
            decreases e - j,
        {
            if v > u64::MAX / 2 {
                proof {
                    lemma_two_to_split(j as nat, (e - j) as nat);
                    lemma_two_to_positive((e - j - 1) as nat);
                    assert(two_to((e - j) as nat) >= 2);
                    let k = two_to((e - j) as nat);
                    assert(b * two_to(e as nat) == (v as nat) * k) by (nonlinear_arith)
                        requires
                            two_to(e as nat) == two_to(j as nat) * k,
                            v as nat == b * two_to(j as nat),
                    ;
                    assert((v as nat) * k >= (v as nat) * 2) by (nonlinear_arith)
                        requires
                            k >= 2,
                    ;
                    assert(b * two_to(e as nat) > u64::MAX);
                }
                return None;
            }
            v = v * 2;
            j = j + 1;
            proof {
                assert(two_to(j as nat) == 2 * two_to((j - 1) as nat));
                assert(b * two_to(j as nat) == 2 * (b * two_to((j - 1) as nat))) by (nonlinear_arith)
                    requires
                        two_to(j as nat) == 2 * two_to((j - 1) as nat),
                ;
            }
        }
        Some(v)
    } else {
        let sh = 1075 - exp;
        let mut v: u64 = base;
        let mut j: u64 = 0;
        assert(b / 1 == b);
        while j < sh
            invariant
                j <= sh,
                sh == 1075 - exp,
                v as int == (b as int) / (two_to(j as nat) as int),
            decreases sh - j,
        {
            proof {
                lemma_two_to_positive(j as nat);
                vstd::arithmetic::div_mod::lemma_div_denominator(b as int, two_to(j as nat) as int, 2);
                assert(two_to((j + 1) as nat) == 2 * two_to(j as nat));
                assert(two_to(j as nat) as int * 2 == two_to((j + 1) as nat) as int);
            }
            v = v / 2;
            j = j + 1;
        }
        Some(v)
    }
}

proof fn lemma_two_to_split(a: nat, c: nat)
    ensures
        two_to(a + c) == two_to(a) * two_to(c),
    decreases a,
{
    if a == 0 {
        assert(two_to(a) == 1);
        assert(a + c == c);
        assert(two_to(a) * two_to(c) == two_to(c));
    } else {
        let a1 = (a - 1) as nat;
        lemma_two_to_split(a1, c);
        assert(two_to(a) == 2 * two_to(a1));
        assert(a + c == (a1 + c) + 1);
        assert(two_to(a + c) == 2 * two_to(a1 + c));
        let x = two_to(a1);
        let y = two_to(c);
        assert(2 * (x * y) == (2 * x) * y) by (nonlinear_arith);
    }
}

/// The boost given by an optional `boost` member, as a fixed-point score.
pub open spec fn boost_of(ms: Seq<(String, Json)>) -> Result<u64, QueryParseError> {
    match member(ms, "boost"@) {
        None => Ok(SCORE_ONE),
        Some(Json::F64 { bits }) => match float_thousandths(bits) {
            Some(t) => if t <= u64::MAX {
                Ok(t as u64)
            } else {
                Err(QueryParseError::InvalidNumber)
            },
            None => Err(QueryParseError::InvalidNumber),
        },
        Some(j) => match natural(j) {
            Some(n) => if n <= u64::MAX / (SCORE_ONE as u64) {
                Ok((n * SCORE_ONE) as u64)
            } else {
                Err(QueryParseError::InvalidNumber)
            },
            None => Err(QueryParseError::InvalidNumber),
        },
    }
}

/// The first error of a term or prefix query's body, if any.
pub open spec fn term_error(body: Json) -> Option<QueryParseError> {
    match body {
        Json::Object(ms) => if ms@.len() != 1 {
            Some(QueryParseError::Malformed)
        } else {
            match ms@[0].1 {
                Json::String(_) => None,
                Json::Object(ps) => match member(ps@, "value"@) {
                    Some(Json::String(_)) => match boost_of(ps@) {
                        Ok(_) => None,
                        Err(e) => Some(e),
                    },
                    _ => Some(QueryParseError::Malformed),
                },
                _ => Some(QueryParseError::Malformed),
            }
        },
        _ => Some(QueryParseError::Malformed),
    }
}

/// The query a valid term or prefix body denotes.
pub open spec fn term_denotes(body: Json, matcher: TermMatcher, q: Query) -> bool {
    match body {
        Json::Object(ms) => match ms@[0].1 {
            Json::String(t) => q == Query::MatchTerm {
                field: ms@[0].0,
                term: t,
                matcher,
                boost: SCORE_ONE,
            },
            Json::Object(ps) => match member(ps@, "value"@) {
                Some(Json::String(t)) => q == Query::MatchTerm {
                    field: ms@[0].0,
                    term: t,
                    matcher,
                    boost: boost_of(ps@)->Ok_0,
                },
                _ => false,
            },
            _ => false,
        },
        _ => false,
    }
}

pub open spec fn is_bool_key(k: Seq<char>) -> bool {
    k == "must"@ || k == "must_not"@ || k == "should"@ || k == "filter"@ || k
        == "minimum_should_match"@ || k == "boost"@
}

pub open spec fn is_dis_max_key(k: Seq<char>) -> bool {
    k == "queries"@ || k == "boost"@
}

/// The first error of a query, in the order the parser meets them.
pub open spec fn query_error(j: Json) -> Option<QueryParseError>
    decreases j, 1nat,
{
    match j {
        Json::Object(ms) => if ms@.len() != 1 {
            Some(QueryParseError::Malformed)
        } else {
            let name = ms@[0].0@;
            let body = ms@[0].1;
            if name == "match_all"@ {
                match body {
                    Json::Object(bm) => match boost_of(bm@) {
                        Ok(_) => None,
                        Err(e) => Some(e),
                    },
                    _ => Some(QueryParseError::Malformed),
                }
            } else if name == "match_none"@ {
                match body {
                    Json::Object(_) => None,
                    _ => Some(QueryParseError::Malformed),
                }
            } else if name == "term"@ || name == "prefix"@ {
                term_error(body)
            } else if name == "bool"@ {
                match body {
                    Json::Object(bm) => bool_error(bm@),
                    _ => Some(QueryParseError::Malformed),
                }
            } else if name == "dis_max"@ {
                match body {
                    Json::Object(bm) => dis_max_error(bm@),
                    _ => Some(QueryParseError::Malformed),
                }
            } else {
                Some(QueryParseError::UnknownQueryType)
            }
        },
        _ => Some(QueryParseError::Malformed),
    }
}

/// The first error among the first `n` queries.
pub open spec fn list_error(cs: Seq<Json>, n: int) -> Option<QueryParseError>
    decreases cs, n,
{
    if n <= 0 || n > cs.len() {
        None
    } else {
        match list_error(cs, n - 1) {
            Some(e) => Some(e),
            None => query_error(cs[n - 1]),
        }
    }
}

/// The first error of a clause member's value: one query, or an array of
/// queries.
pub open spec fn clause_error(v: Json) -> Option<QueryParseError>
    decreases v, 2nat,
{
    match v {
        Json::Array(items) => list_error(items@, items@.len() as int),
        Json::Object(_) => query_error(v),
        _ => Some(QueryParseError::Malformed),
    }
}

pub open spec fn members_ok(bm: Seq<(String, Json)>, bool_keys: bool) -> bool {
    forall|i: int|
        0 <= i < bm.len() ==> if bool_keys {
            is_bool_key((#[trigger] bm[i]).0@)
        } else {
            is_dis_max_key(bm[i].0@)
        }
}

pub open spec fn msm_ok(bm: Seq<(String, Json)>) -> bool {
    match member(bm, "minimum_should_match"@) {
        None => true,
        Some(j) => natural(j) is Some,
    }
}

/// The first error of an optional clause member.
pub open spec fn opt_clause_error(bm: Seq<(String, Json)>, key: Seq<char>) -> Option<QueryParseError>
    decreases bm, 0nat, 1nat,
    via lemma_member_decreases
{
    match member(bm, key) {
        None => None,
        Some(v) => clause_error(v),
    }
}

/// The first error of a bool query's parameters.
pub open spec fn bool_error(bm: Seq<(String, Json)>) -> Option<QueryParseError>
    decreases bm, 0nat, 2nat,
{
    if !members_ok(bm, true) {
        Some(QueryParseError::Malformed)
    } else if !msm_ok(bm) || boost_of(bm) is Err {
        Some(QueryParseError::InvalidNumber)
    } else if opt_clause_error(bm, "must"@) is Some {
        opt_clause_error(bm, "must"@)
    } else if opt_clause_error(bm, "must_not"@) is Some {
        opt_clause_error(bm, "must_not"@)
    } else if opt_clause_error(bm, "should"@) is Some {
        opt_clause_error(bm, "should"@)
    } else {
        opt_clause_error(bm, "filter"@)
    }
}

/// The first error of a dis_max query's parameters.
pub open spec fn dis_max_error(bm: Seq<(String, Json)>) -> Option<QueryParseError>
    decreases bm, 0nat, 2nat,
{
    if !members_ok(bm, false) {
        Some(QueryParseError::Malformed)
    } else if boost_of(bm) is Err {
        Some(QueryParseError::InvalidNumber)
    } else {
        match member(bm, "queries"@) {
            Some(Json::Array(_)) => opt_clause_error(bm, "queries"@),
            _ => Some(QueryParseError::Malformed),
        }
    }
}

/// Whether the parameters name any clause under `key`.
pub open spec fn has_clauses(bm: Seq<(String, Json)>, key: Seq<char>) -> bool {
    match member(bm, key) {
        Some(Json::Array(items)) => items@.len() > 0,
        Some(Json::Object(_)) => true,
        _ => false,
    }
}

/// The minimum number of `should` clauses that must match: as given, or 1
/// where there are `should` clauses, or 0.
pub open spec fn msm_of(bm: Seq<(String, Json)>) -> u64 {
    match member(bm, "minimum_should_match"@) {
        Some(j) => natural(j)->Some_0,
        None => if has_clauses(bm, "should"@) {
            1
        } else {
            0
        },
    }
}

/// Whether `q` is the query that a valid query `j` denotes.
pub open spec fn denotes(j: Json, q: Query) -> bool
    decreases j, 1nat,
{
    match j {
        Json::Object(ms) => if ms@.len() != 1 {
            false
        } else {
            let name = ms@[0].0@;
            let body = ms@[0].1;
            if name == "match_all"@ {
                match body {
                    Json::Object(bm) => q == Query::MatchAll { boost: boost_of(bm@)->Ok_0 },
                    _ => false,
                }
            } else if name == "match_none"@ {
                q == Query::MatchNone
            } else if name == "term"@ {
                term_denotes(body, TermMatcher::Exact, q)
            } else if name == "prefix"@ {
                term_denotes(body, TermMatcher::Prefix, q)
            } else if name == "bool"@ {
                match body {
                    Json::Object(bm) => bool_denotes(bm@, q),
                    _ => false,
                }
            } else if name == "dis_max"@ {
                match body {
                    Json::Object(bm) => dis_max_denotes(bm@, q),
                    _ => false,
                }
            } else {
                false
            }
        },
        _ => false,
    }
}

/// Whether `qs` are the queries that valid queries `cs` denote, in order.
pub open spec fn list_denotes(cs: Seq<Json>, qs: Seq<Query>) -> bool
    decreases cs, 0nat,
{
    qs.len() == cs.len() && forall|i: int| 0 <= i < cs.len() ==> denotes(cs[i], #[trigger] qs[i])
}

/// Whether `qs` are the queries that a clause member's value denotes.
pub open spec fn clause_denotes(v: Json, qs: Seq<Query>) -> bool
    decreases v, 2nat,
{
    match v {
        Json::Array(items) => list_denotes(items@, qs),
        Json::Object(_) => qs.len() == 1 && denotes(v, qs[0]),
        _ => false,
    }
}

/// Whether `qs` are the queries of an optional clause member.
pub open spec fn opt_clause_denotes(bm: Seq<(String, Json)>, key: Seq<char>, qs: Seq<Query>) -> bool
    decreases bm, 0nat, 1nat,
    via lemma_member_decreases_3
{
    match member(bm, key) {
        None => qs.len() == 0,
        Some(v) => clause_denotes(v, qs),
    }
}

/// Whether `q` is the bool query that valid parameters denote.
pub open spec fn bool_denotes(bm: Seq<(String, Json)>, q: Query) -> bool
    decreases bm, 0nat, 2nat,
{
    match q {
        Query::Bool { must, must_not, should, filter, minimum_should_match, boost } => {
            &&& opt_clause_denotes(bm, "must"@, must@)
            &&& opt_clause_denotes(bm, "must_not"@, must_not@)
            &&& opt_clause_denotes(bm, "should"@, should@)
            &&& opt_clause_denotes(bm, "filter"@, filter@)
            &&& minimum_should_match == msm_of(bm)
            &&& boost == boost_of(bm)->Ok_0
        },
        _ => false,
    }
}

/// Whether `q` is the normalized disjunction of the queries of `v`: none
/// gives `MatchNone`, one gives that query, more give a `DisjunctionMax`.
pub open spec fn dis_max_inner(v: Json, q: Query) -> bool
    decreases v, 2nat,
{
    match v {
        Json::Array(items) => if items@.len() == 0 {
            q == Query::MatchNone
        } else if items@.len() == 1 {
            denotes(items@[0], q)
        } else {
            match q {
                Query::DisjunctionMax { queries, boost } => boost == SCORE_ONE && list_denotes(
                    items@,
                    queries@,
                ),
                _ => false,
            }
        },
        _ => false,
    }
}

/// Whether `q` is the dis_max query that valid parameters denote: the
/// normalized disjunction, under a score transform where the boost is not 1.
pub open spec fn dis_max_denotes(bm: Seq<(String, Json)>, q: Query) -> bool
    decreases bm, 0nat, 3nat,
    via lemma_member_decreases_4
{
    match member(bm, "queries"@) {
        Some(v) => if boost_of(bm)->Ok_0 == SCORE_ONE {
            dis_max_inner(v, q)
        } else {
            match q {
                Query::BoostScore { query, mul, add } => mul == boost_of(bm)->Ok_0 && add == 0
                    && dis_max_inner(v, *query),
                _ => false,
            }
        },
        None => false,
    }
}

#[via_fn]
proof fn lemma_member_decreases_3(bm: Seq<(String, Json)>, key: Seq<char>, qs: Seq<Query>) {
    lemma_member_below(bm, key);
}

#[via_fn]
proof fn lemma_member_decreases_4(bm: Seq<(String, Json)>, q: Query) {
    lemma_member_below(bm, "queries"@);
}

#[via_fn]
proof fn lemma_member_decreases(bm: Seq<(String, Json)>, key: Seq<char>) {
    lemma_member_below(bm, key);
}

/// A member's value lies below the members in the decreases order.
pub proof fn lemma_member_below(bm: Seq<(String, Json)>, key: Seq<char>)
    ensures
        member(bm, key) is Some ==> decreases_to!(bm => member(bm, key)->Some_0),
    decreases bm.len(),
{
    if bm.len() > 0 {
        if bm[0].0@ == key {
            assert(decreases_to!(bm => bm[0]));
            assert(decreases_to!(bm[0] => bm[0].1));
        } else {
            lemma_member_below(bm.drop_first(), key);
            assert(decreases_to!(bm => bm.subrange(1, bm.len() as int)));
            assert(bm.drop_first() == bm.subrange(1, bm.len() as int));
        }
    }
}


/// Once an error is met among the first `m` queries, it is the first
/// error among any longer prefix.
proof fn lemma_first_error_stays(cs: Seq<Json>, m: int, n: int)
    requires
        0 < m <= n <= cs.len(),
        list_error(cs, m) is Some,
    ensures
        list_error(cs, n) == list_error(cs, m),
    decreases n - m,
{
    if n > m {
        lemma_first_error_stays(cs, m, n - 1);
    }
}

/// The value of the first member named `key`.
pub fn get_member<'a>(ms: &'a Vec<(String, Json)>, key: &str) -> (r: Option<&'a Json>)
    ensures
        match r {
            Some(v) => member(ms@, key@) == Some(*v),
            None => member(ms@, key@) is None,
        },
{
    let mut i: usize = 0;
    assert(ms@.subrange(0, ms@.len() as int) =~= ms@);
    while i < ms.len()
        invariant
            i <= ms.len(),
            member(ms@, key@) == member(ms@.subrange(i as int, ms@.len() as int), key@),
        decreases ms.len() - i,
    {
        assert(ms@.subrange(i as int, ms@.len() as int).drop_first() =~= ms@.subrange(
            i + 1,
            ms@.len() as int,
        ));
        if same_text(ms[i].0.as_str(), key) {
            return Some(&ms[i].1);
        }
        i = i + 1;
    }
    None
}

fn parse_natural(j: &Json) -> (r: Option<u64>)
    ensures
        r == natural(*j),
{
    match j {
        Json::U64(n) => Some(*n),
        Json::I64(n) => if *n >= 0 {
            Some(*n as u64)
        } else {
            None
        },
        _ => None,
    }
}

fn parse_boost(ms: &Vec<(String, Json)>) -> (r: Result<u64, QueryParseError>)
    ensures
        r == boost_of(ms@),
{
    match get_member(ms, "boost") {
        None => Ok(SCORE_ONE),
        Some(Json::F64 { bits }) => match float_boost(*bits) {
            Some(t) => Ok(t),
            None => Err(QueryParseError::InvalidNumber),
        },
        Some(j) => match parse_natural(j) {
            Some(n) => if n <= u64::MAX / SCORE_ONE {
                Ok(n * SCORE_ONE)
            } else {
                Err(QueryParseError::InvalidNumber)
            },
            None => Err(QueryParseError::InvalidNumber),
        },
    }
}

fn is_bool_key_exec(k: &str) -> (r: bool)
    ensures
        r == is_bool_key(k@),
{
    same_text(k, "must") || same_text(k, "must_not") || same_text(k, "should") || same_text(
        k,
        "filter",
    ) || same_text(k, "minimum_should_match") || same_text(k, "boost")
}

fn is_dis_max_key_exec(k: &str) -> (r: bool)
    ensures
        r == is_dis_max_key(k@),
{
    same_text(k, "queries") || same_text(k, "boost")
}

fn check_members(bm: &Vec<(String, Json)>, bool_keys: bool) -> (r: bool)
    ensures
        r == members_ok(bm@, bool_keys),
{
    let mut i: usize = 0;
    while i < bm.len()
        invariant
            i <= bm.len(),
            forall|k: int|
                0 <= k < i ==> if bool_keys {
                    is_bool_key((#[trigger] bm@[k]).0@)
                } else {
                    is_dis_max_key(bm@[k].0@)
                },
        decreases bm.len() - i,
    {
        let ok = if bool_keys {
            is_bool_key_exec(bm[i].0.as_str())
        } else {
            is_dis_max_key_exec(bm[i].0.as_str())
        };
        if !ok {
            return false;
        }
        i = i + 1;
    }
    true
}

fn parse_term(body: &Json, matcher: TermMatcher) -> (r: Result<Query, QueryParseError>)
    ensures
        match r {
            Ok(q) => term_error(*body) is None && term_denotes(*body, matcher, q),
            Err(e) => term_error(*body) == Some(e),
        },
{
    match body {
        Json::Object(ms) => {
            if ms.len() != 1 {
                return Err(QueryParseError::Malformed);
            }
            let field = &ms[0].0;
            match &ms[0].1 {
                Json::String(t) => Ok(
                    Query::MatchTerm {
                        field: field.clone(),
                        term: t.clone(),
                        matcher,
                        boost: SCORE_ONE,
                    },
                ),
                Json::Object(ps) => match get_member(ps, "value") {
                    Some(Json::String(t)) => match parse_boost(ps) {
                        Ok(b) => Ok(
                            Query::MatchTerm {
                                field: field.clone(),
                                term: t.clone(),
                                matcher,
                                boost: b,
                            },
                        ),
                        Err(e) => Err(e),
                    },
                    _ => Err(QueryParseError::Malformed),
                },
                _ => Err(QueryParseError::Malformed),
            }
        },
        _ => Err(QueryParseError::Malformed),
    }
}

fn parse_list(items: &Vec<Json>) -> (r: Result<Vec<Query>, QueryParseError>)
    ensures
        match r {
            Ok(qs) => list_error(items@, items@.len() as int) is None && list_denotes(
                items@,
                qs@,
            ),
            Err(e) => list_error(items@, items@.len() as int) == Some(e),
        },
    decreases items, 0nat,
{
    let mut qs: Vec<Query> = Vec::new();
    let mut i: usize = 0;
    while i < items.len()
        invariant
            i <= items.len(),
            qs@.len() == i,
            list_error(items@, i as int) is None,
            forall|k: int| 0 <= k < i ==> denotes(items@[k], #[trigger] qs@[k]),
        decreases items.len() - i,
    {
        match parse_query(&items[i]) {
            Ok(q) => {
                qs.push(q);
            },
            Err(e) => {
                proof {
                    lemma_first_error_stays(items@, i + 1, items@.len() as int);
                }
                return Err(e);
            },
        }
        i = i + 1;
    }
    Ok(qs)
}

fn parse_clause(v: &Json) -> (r: Result<Vec<Query>, QueryParseError>)
    ensures
        match r {
            Ok(qs) => clause_error(*v) is None && clause_denotes(*v, qs@),
            Err(e) => clause_error(*v) == Some(e),
        },
    decreases v, 2nat,
{
    match v {
        Json::Array(items) => parse_list(items),
        Json::Object(_) => match parse_query(v) {
            Ok(q) => {
                let mut qs: Vec<Query> = Vec::new();
                qs.push(q);
                Ok(qs)
            },
            Err(e) => Err(e),
        },
        _ => Err(QueryParseError::Malformed),
    }
}

fn parse_opt_clause(bm: &Vec<(String, Json)>, key: &str) -> (r: Result<Vec<Query>, QueryParseError>)
    ensures
        match r {
            Ok(qs) => opt_clause_error(bm@, key@) is None && opt_clause_denotes(bm@, key@, qs@),
            Err(e) => opt_clause_error(bm@, key@) == Some(e),
        },
    decreases bm, 0nat, 1nat,
{
    match get_member(bm, key) {
        None => Ok(Vec::new()),
        Some(v) => {
            proof {
                lemma_member_below(bm@, key@);
            }
            parse_clause(v)
        },
    }
}

fn parse_bool(bm: &Vec<(String, Json)>) -> (r: Result<Query, QueryParseError>)
    ensures
        match r {
            Ok(q) => bool_error(bm@) is None && bool_denotes(bm@, q),
            Err(e) => bool_error(bm@) == Some(e),
        },
    decreases bm, 0nat, 2nat,
{
    if !check_members(bm, true) {
        return Err(QueryParseError::Malformed);
    }
    let msm_given = match get_member(bm, "minimum_should_match") {
        None => None,
        Some(j) => match parse_natural(j) {
            Some(n) => Some(n),
            None => {
                return Err(QueryParseError::InvalidNumber);
            },
        },
    };
    let boost = match parse_boost(bm) {
        Ok(b) => b,
        Err(e) => {
            return Err(e);
        },
    };
    let must = match parse_opt_clause(bm, "must") {
        Ok(qs) => qs,
        Err(e) => {
            return Err(e);
        },
    };
    let must_not = match parse_opt_clause(bm, "must_not") {
        Ok(qs) => qs,
        Err(e) => {
            return Err(e);
        },
    };
    let should = match parse_opt_clause(bm, "should") {
        Ok(qs) => qs,
        Err(e) => {
            return Err(e);
        },
    };
    let filter = match parse_opt_clause(bm, "filter") {
        Ok(qs) => qs,
        Err(e) => {
            return Err(e);
        },
    };
    let minimum_should_match = match msm_given {
        Some(n) => n,
        None => {
            proof {
                match member(bm@, "should"@) {
                    Some(Json::Array(items)) => {
                        assert(should@.len() == items@.len());
                    },
                    Some(Json::Object(_)) => {},
                    Some(_) => {},
                    None => {},
                }
            }
            if should.len() > 0 {
                1
            } else {
                0
            }
        },
    };
    Ok(Query::Bool { must, must_not, should, filter, minimum_should_match, boost })
}

fn parse_dis_max(bm: &Vec<(String, Json)>) -> (r: Result<Query, QueryParseError>)
    ensures
        match r {
            Ok(q) => dis_max_error(bm@) is None && dis_max_denotes(bm@, q),
            Err(e) => dis_max_error(bm@) == Some(e),
        },
    decreases bm, 0nat, 3nat,
{
    if !check_members(bm, false) {
        return Err(QueryParseError::Malformed);
    }
    let boost = match parse_boost(bm) {
        Ok(b) => b,
        Err(e) => {
            return Err(e);
        },
    };
    match get_member(bm, "queries") {
        Some(Json::Array(_)) => {},
        _ => {
            return Err(QueryParseError::Malformed);
        },
    }
    let queries = match parse_opt_clause(bm, "queries") {
        Ok(qs) => qs,
        Err(e) => {
            return Err(e);
        },
    };
    let ghost qv = queries@;
    let inner = match build_disjunction_max_query(queries) {
        Ok(q) => q,
        Err(e) => {
            return Err(e);
        },
    };
    proof {
        match member(bm@, "queries"@) {
            Some(Json::Array(items)) => {
                assert(qv.len() == items@.len());
                if items@.len() == 1 {
                    assert(denotes(items@[0], qv[0]));
                }
                assert(dis_max_inner(member(bm@, "queries"@)->Some_0, inner));
            },
            _ => {},
        }
    }
    Ok(build_score_query(inner, boost, 0))
}

/// Parses a query written in the JSON query language (see the module
/// documentation). On success the result is the query that the JSON
/// denotes; otherwise the error is the first one met.
pub fn parse_query(j: &Json) -> (r: Result<Query, QueryParseError>)
    ensures
        match r {
            Ok(q) => query_error(*j) is None && denotes(*j, q),
            Err(e) => query_error(*j) == Some(e),
        },
    decreases j, 1nat,
{
    match j {
        Json::Object(ms) => {
            if ms.len() != 1 {
                return Err(QueryParseError::Malformed);
            }
            let name = ms[0].0.as_str();
            let body = &ms[0].1;
            if same_text(name, "match_all") {
                match body {
                    Json::Object(bm) => match parse_boost(bm) {
                        Ok(b) => Ok(Query::MatchAll { boost: b }),
                        Err(e) => Err(e),
                    },
                    _ => Err(QueryParseError::Malformed),
                }
            } else if same_text(name, "match_none") {
                match body {
                    Json::Object(_) => Ok(Query::MatchNone),
                    _ => Err(QueryParseError::Malformed),
                }
            } else if same_text(name, "term") {
                parse_term(body, TermMatcher::Exact)
            } else if same_text(name, "prefix") {
                parse_term(body, TermMatcher::Prefix)
            } else if same_text(name, "bool") {
                match body {
                    Json::Object(bm) => parse_bool(bm),
                    _ => Err(QueryParseError::Malformed),
                }
            } else if same_text(name, "dis_max") {
                match body {
                    Json::Object(bm) => parse_dis_max(bm),
                    _ => Err(QueryParseError::Malformed),
                }
            } else {
                Err(QueryParseError::UnknownQueryType)
            }
        },
        _ => Err(QueryParseError::Malformed),
    }
}

/// Two queries denoted by the same JSON match the same documents.
pub proof fn lemma_denoted_queries_agree(
    j: Json,
    q1: Query,
    q2: Query,
    doc: Seq<(Seq<char>, crate::value::ValueView)>,
)
    requires
        denotes(j, q1),
        denotes(j, q2),
    ensures
        query_matches(q1, doc) == query_matches(q2, doc),
    decreases j, 1nat,
{
    reveal_strlit("match_all");
    reveal_strlit("match_none");
    reveal_strlit("term");
    reveal_strlit("prefix");
    reveal_strlit("bool");
    reveal_strlit("dis_max");
    assert("match_all"@[0] == 'm' && "match_none"@[0] == 'm' && "term"@[0] == 't');
    assert("prefix"@[0] == 'p' && "bool"@[0] == 'b' && "dis_max"@[0] == 'd');
    match j {
        Json::Object(ms) => {
            let name = ms@[0].0@;
            let body = ms@[0].1;
            if name == "bool"@ {
                match body {
                    Json::Object(bm) => {
                        match (q1, q2) {
                            (
                                Query::Bool { must: a1, must_not: b1, should: c1, filter: d1, .. },
                                Query::Bool { must: a2, must_not: b2, should: c2, filter: d2, .. },
                            ) => {
                                lemma_opt_clauses_agree(bm@, "must"@, a1@, a2@, doc);
                                lemma_opt_clauses_agree(bm@, "must_not"@, b1@, b2@, doc);
                                lemma_opt_clauses_agree(bm@, "should"@, c1@, c2@, doc);
                                lemma_opt_clauses_agree(bm@, "filter"@, d1@, d2@, doc);
                            },
                            _ => {},
                        }
                    },
                    _ => {},
                }
            } else if name == "dis_max"@ {
                match body {
                    Json::Object(bm) => {
                        assert(ms@.len() == 1);
                        assert(dis_max_denotes(bm@, q1));
                        assert(dis_max_denotes(bm@, q2));
                        assert(member(bm@, "queries"@) is Some);
                        lemma_member_below(bm@, "queries"@);
                        let v = member(bm@, "queries"@)->Some_0;
                        assert(decreases_to!(j => ms));
                        assert(decreases_to!(ms => ms@));
                        assert(decreases_to!(ms@ => ms@[0]));
                        assert(decreases_to!(ms@[0] => ms@[0].1));
                        assert(decreases_to!(body => bm));
                        assert(decreases_to!(bm => bm@));
                        assert(decreases_to!(bm@ => v));
                        if boost_of(bm@)->Ok_0 == SCORE_ONE {
                            lemma_dis_max_inner_agree(v, q1, q2, doc);
                        } else {
                            match (q1, q2) {
                                (
                                    Query::BoostScore { query: i1, .. },
                                    Query::BoostScore { query: i2, .. },
                                ) => {
                                    lemma_dis_max_inner_agree(v, *i1, *i2, doc);
                                },
                                _ => {},
                            }
                        }
                    },
                    _ => {},
                }
            }
        },
        _ => {},
    }
}

proof fn lemma_lists_agree(
    cs: Seq<Json>,
    qs1: Seq<Query>,
    qs2: Seq<Query>,
    doc: Seq<(Seq<char>, crate::value::ValueView)>,
    n: int,
)
    requires
        list_denotes(cs, qs1),
        list_denotes(cs, qs2),
        0 <= n <= cs.len(),
    ensures
        crate::query::count_matching(qs1, doc, n) == crate::query::count_matching(qs2, doc, n),
    decreases cs, n,
{
    if n > 0 {
        lemma_lists_agree(cs, qs1, qs2, doc, n - 1);
        assert(denotes(cs[n - 1], qs1[n - 1]));
        assert(denotes(cs[n - 1], qs2[n - 1]));
        lemma_denoted_queries_agree(cs[n - 1], qs1[n - 1], qs2[n - 1], doc);
    }
}

proof fn lemma_clauses_agree(
    v: Json,
    qs1: Seq<Query>,
    qs2: Seq<Query>,
    doc: Seq<(Seq<char>, crate::value::ValueView)>,
)
    requires
        clause_denotes(v, qs1),
        clause_denotes(v, qs2),
    ensures
        qs1.len() == qs2.len(),
        crate::query::count_matching(qs1, doc, qs1.len() as int) == crate::query::count_matching(
            qs2,
            doc,
            qs2.len() as int,
        ),
    decreases v, 2nat,
{
    match v {
        Json::Array(items) => {
            lemma_lists_agree(items@, qs1, qs2, doc, items@.len() as int);
        },
        Json::Object(_) => {
            lemma_denoted_queries_agree(v, qs1[0], qs2[0], doc);
            reveal_with_fuel(crate::query::count_matching, 2);
        },
        _ => {},
    }
}

proof fn lemma_opt_clauses_agree(
    bm: Seq<(String, Json)>,
    key: Seq<char>,
    qs1: Seq<Query>,
    qs2: Seq<Query>,
    doc: Seq<(Seq<char>, crate::value::ValueView)>,
)
    requires
        opt_clause_denotes(bm, key, qs1),
        opt_clause_denotes(bm, key, qs2),
    ensures
        qs1.len() == qs2.len(),
        crate::query::count_matching(qs1, doc, qs1.len() as int) == crate::query::count_matching(
            qs2,
            doc,
            qs2.len() as int,
        ),
    decreases bm, 0nat, 1nat,
{
    match member(bm, key) {
        Some(v) => {
            lemma_member_below(bm, key);
            lemma_clauses_agree(v, qs1, qs2, doc);
        },
        None => {},
    }
}

proof fn lemma_dis_max_inner_agree(
    v: Json,
    q1: Query,
    q2: Query,
    doc: Seq<(Seq<char>, crate::value::ValueView)>,
)
    requires
        dis_max_inner(v, q1),
        dis_max_inner(v, q2),
    ensures
        query_matches(q1, doc) == query_matches(q2, doc),
    decreases v, 2nat,
{
    match v {
        Json::Array(items) => {
            if items@.len() == 1 {
                lemma_denoted_queries_agree(items@[0], q1, q2, doc);
            } else if items@.len() >= 2 {
                match (q1, q2) {
                    (
                        Query::DisjunctionMax { queries: a, .. },
                        Query::DisjunctionMax { queries: b, .. },
                    ) => {
                        lemma_lists_agree(items@, a@, b@, doc, items@.len() as int);
                    },
                    _ => {},
                }
            }
        },
        _ => {},
    }
}

} // verus!
