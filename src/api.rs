//! The registry of indices by name, and the request handlers that only
//! compute a response from it: the transport around them lives elsewhere.

use crate::document::{all_field, all_terms, converted_fields, doc_view, same_text, Document, Mapping};
use crate::index::{count_docs, entries_view, keys_of, ranks_before, true_hit, Hit, Index};
use crate::value::ValueView;
use crate::parser::{denotes, get_member, member, parse_query, query_error};
use crate::query::{Query, SCORE_ONE};
use crate::value::Json;
use vstd::prelude::*;
use vstd::string::*;

verus! {

/// A response: an HTTP status code and a JSON body.
#[derive(Clone, Debug, PartialEq, Eq)]
pub struct ApiResponse {
    pub status: u16,
    pub body: String,
}

/// The indices of a server, by name.
#[derive(Debug)]
pub struct Indices {
    pub indices: Vec<Index>,
}

pub open spec fn index_names(v: Seq<Index>) -> Seq<Seq<char>> {
    v.map_values(|i: Index| i.name@)
}

impl Indices {
    /// Names are unique and every index is well formed.
    pub open spec fn wf(&self) -> bool {
        &&& forall|i: int, j: int|
            0 <= i < j < self.indices@.len() ==> self.indices@[i].name@ != self.indices@[j].name@
        &&& forall|i: int| 0 <= i < self.indices@.len() ==> (#[trigger] self.indices@[i]).wf()
    }

    /// No indices.
    pub fn new() -> (r: Indices)
        ensures
            r.wf(),
            r.indices@.len() == 0,
    {
        Indices { indices: Vec::new() }
    }

    /// The position of the index named `name`.
    pub fn find(&self, name: &str) -> (r: Option<usize>)
        ensures
            match r {
                Some(i) => i < self.indices@.len() && self.indices@[i as int].name@ == name@,
                None => !index_names(self.indices@).contains(name@) && forall|k: int|
                    0 <= k < self.indices@.len() ==> (#[trigger] self.indices@[k]).name@ != name@,
            },
    {
        let mut i: usize = 0;
        while i < self.indices.len()
            invariant
                i <= self.indices.len(),
                forall|k: int| 0 <= k < i ==> (#[trigger] self.indices@[k]).name@ != name@,
            decreases self.indices.len() - i,
        {
            if same_text(self.indices[i].name.as_str(), name) {
                return Some(i);
            }
            i = i + 1;
        }
        proof {
            if index_names(self.indices@).contains(name@) {
                let k = choose|k: int|
                    0 <= k < index_names(self.indices@).len() && index_names(self.indices@)[k]
                        == name@;
                assert(self.indices@[k].name@ != name@);
            }
        }
        None
    }

    /// Adds `index`, replacing an index of the same name.
    pub fn put_index(&mut self, index: Index)
        requires
            old(self).wf(),
            index.wf(),
        ensures
            final(self).wf(),
            index_names(old(self).indices@).contains(index.name@) ==> index_names(
                final(self).indices@,
            ) == index_names(old(self).indices@),
            !index_names(old(self).indices@).contains(index.name@) ==> index_names(
                final(self).indices@,
            ) == index_names(old(self).indices@).push(index.name@),
            exists|i: int|
                0 <= i < final(self).indices@.len() && #[trigger] final(self).indices@[i] == index,
            index_names(old(self).indices@).contains(index.name@) ==> exists|k: int|
                0 <= k < old(self).indices@.len() && (#[trigger] old(self).indices@[k]).name@
                    == index.name@ && final(self).indices@ == old(self).indices@.update(k, index),
            !index_names(old(self).indices@).contains(index.name@) ==> final(self).indices@
                == old(self).indices@.push(index),
    {
        let ghost names = index_names(self.indices@);
        match self.find(index.name.as_str()) {
            Some(i) => {
                let ghost n = index.name@;
                let ghost idx = index;
                let ghost before = self.indices@;
                self.indices.set(i, index);
                assert(index_names(self.indices@) =~= names);
                assert(names[i as int] == n);
                assert(names.contains(n));
                assert(self.indices@[i as int] == idx);
                assert(before[i as int].name@ == n);
                assert forall|a: int, b: int| 0 <= a < b < self.indices@.len() implies self.indices@[a].name@ != self.indices@[b].name@ by {
                    assert(index_names(self.indices@)[a] == names[a]);
                    assert(index_names(self.indices@)[b] == names[b]);
                    assert(names[a] == before[a].name@);
                    assert(names[b] == before[b].name@);
                }
            },
            None => {
                let ghost idx = index;
                let ghost before = self.indices@;
                self.indices.push(index);
                assert(index_names(self.indices@) =~= names.push(idx.name@));
                assert(self.indices@[names.len() as int] == idx);
                assert forall|a: int, b: int| 0 <= a < b < self.indices@.len() implies self.indices@[a].name@ != self.indices@[b].name@ by {
                    assert(index_names(self.indices@)[a] == index_names(self.indices@)[a]);
                    if b == before.len() {
                        assert(names[a] == before[a].name@);
                        assert(!names.contains(idx.name@));
                    }
                }
            },
        }
    }

    /// Removes the index named `name`; false where there is none.
    pub fn delete_index(&mut self, name: &str) -> (r: bool)
        requires
            old(self).wf(),
        ensures
            final(self).wf(),
            r == index_names(old(self).indices@).contains(name@),
            !index_names(final(self).indices@).contains(name@),
            !r ==> final(self).indices@ == old(self).indices@,
            r ==> exists|k: int|
                0 <= k < old(self).indices@.len() && (#[trigger] old(self).indices@[k]).name@
                    == name@ && final(self).indices@ == old(self).indices@.remove(k),
    {
        match self.find(name) {
            Some(i) => {
                let ghost old_v = self.indices@;
                assert(index_names(old_v)[i as int] == name@);
                self.indices.remove(i);
                assert(old_v[i as int].name@ == name@);
                proof {
                    if index_names(self.indices@).contains(name@) {
                        let k = choose|k: int|
                            0 <= k < index_names(self.indices@).len() && index_names(
                                self.indices@,
                            )[k] == name@;
                        if k < i {
                            assert(old_v[k].name@ != old_v[i as int].name@);
                        } else {
                            assert(old_v[i as int].name@ != old_v[k + 1].name@);
                        }
                    }
                }
                true
            },
            None => false,
        }
    }

    /// The names of the indices that carry `alias`, in registry order.
    pub fn indices_with_alias(&self, alias: &str) -> (r: Vec<String>)
        ensures
            r@.map_values(|s: String| s@) == names_with_alias(self.indices@, alias@),
    {
        let mut out: Vec<String> = Vec::new();
        let mut k: usize = 0;
        while k < self.indices.len()
            invariant
                k <= self.indices.len(),
                out@.map_values(|s: String| s@) == names_with_alias(
                    self.indices@.subrange(0, k as int),
                    alias@,
                ),
            decreases self.indices.len() - k,
        {
            let ghost pre = self.indices@.subrange(0, k as int);
            assert(self.indices@.subrange(0, k + 1).drop_last() =~= pre);
            let ghost before = out@;
            if self.indices[k].has_alias(alias) {
                let n = self.indices[k].name.clone();
                out.push(n);
                assert(out@.map_values(|s: String| s@) =~= before.map_values(|s: String| s@).push(
                    n@,
                ));
            }
            k = k + 1;
        }
        assert(self.indices@.subrange(0, self.indices@.len() as int) =~= self.indices@);
        out
    }
}

/// The names of the indices that carry `alias`, in order.
pub open spec fn names_with_alias(v: Seq<Index>, alias: Seq<char>) -> Seq<Seq<char>>
    decreases v.len(),
{
    if v.len() == 0 {
        seq![]
    } else if v.last().alias_names().contains(alias) {
        names_with_alias(v.drop_last(), alias).push(v.last().name@)
    } else {
        names_with_alias(v.drop_last(), alias)
    }
}

/// The decimal digits of a number.
pub open spec fn decimal(n: nat) -> Seq<char>
    decreases n,
{
    if n < 10 {
        seq![digit_char(n)]
    } else {
        decimal(n / 10).push(digit_char(n % 10))
    }
}

pub open spec fn digit_char(d: nat) -> char {
    (('0' as u32) + d) as char
}

fn digit_text(d: usize) -> (r: &'static str)
    requires
        d < 10,
    ensures
        r@ == seq![digit_char(d as nat)],
{
    proof {
        reveal_strlit("0");
        reveal_strlit("1");
        reveal_strlit("2");
        reveal_strlit("3");
        reveal_strlit("4");
        reveal_strlit("5");
        reveal_strlit("6");
        reveal_strlit("7");
        reveal_strlit("8");
        reveal_strlit("9");
    }
    let r = if d == 0 {
        "0"
    } else if d == 1 {
        "1"
    } else if d == 2 {
        "2"
    } else if d == 3 {
        "3"
    } else if d == 4 {
        "4"
    } else if d == 5 {
        "5"
    } else if d == 6 {
        "6"
    } else if d == 7 {
        "7"
    } else if d == 8 {
        "8"
    } else {
        "9"
    };
    assert(r@ =~= seq![digit_char(d as nat)]);
    r
}

/// Writes a number in decimal.
pub fn decimal_text(n: usize) -> (r: String)
    ensures
        r@ == decimal(n as nat),
    decreases n,
{
    if n < 10 {
        String::from_str(digit_text(n))
    } else {
        let mut s = decimal_text(n / 10);
        s.append(digit_text(n % 10));
        s
    }
}

/// The body of a count response.
pub open spec fn count_body(n: nat) -> Seq<char> {
    "{\"count\": "@ + decimal(n) + "}"@
}

/// The query of a request body: its `query` member, parsed.
pub open spec fn body_query_ok(body: Json, q: Query) -> bool {
    match body {
        Json::Object(ms) => match member(ms@, "query"@) {
            Some(j) => query_error(j) is None && denotes(j, q),
            None => false,
        },
        _ => false,
    }
}

/// Whether a request body holds no valid query.
pub open spec fn body_query_bad(body: Json) -> bool {
    match body {
        Json::Object(ms) => match member(ms@, "query"@) {
            Some(j) => query_error(j) is Some,
            None => true,
        },
        _ => true,
    }
}

/// The query of a request body; `MatchAll` where there is no body.
fn request_query(body: Option<&Json>) -> (r: Option<Query>)
    ensures
        match body {
            None => r == Some(Query::MatchAll { boost: SCORE_ONE }),
            Some(b) => match r {
                Some(q) => body_query_ok(*b, q),
                None => body_query_bad(*b),
            },
        },
{
    match body {
        None => Some(Query::MatchAll { boost: SCORE_ONE }),
        Some(b) => match b {
            Json::Object(ms) => match get_member(ms, "query") {
                Some(j) => match parse_query(j) {
                    Ok(q) => Some(q),
                    Err(_) => None,
                },
                None => None,
            },
            _ => None,
        },
    }
}

/// The response of a query that could not be read.
pub fn query_error_response() -> (r: ApiResponse)
    ensures
        r.status == 400,
        r.body@ == "{\"message\": \"Query error\"}"@,
{
    ApiResponse { status: 400, body: String::from_str("{\"message\": \"Query error\"}") }
}

/// Counts the documents of an index that the request's query matches (all
/// of them where there is no body): 200 with the count, 400 where the body
/// holds no valid query, 404 where there is no such index.
pub fn view_count(indices: &Indices, index_name: &str, body: Option<&Json>) -> (r: ApiResponse)
    requires
        indices.wf(),
    ensures
        !index_names(indices.indices@).contains(index_name@) ==> r.status == 404
            && r.body@ == "{\"message\": \"Index not found\"}"@,
        forall|i: int|
            0 <= i < indices.indices@.len() && (#[trigger] indices.indices@[i]).name@
                == index_name@ ==> {
                let es = indices.indices@[i].entries();
                match body {
                    None => r.status == 200 && r.body@ == count_body(es.len()),
                    Some(b) => if body_query_bad(*b) {
                        r.status == 400 && r.body@ == "{\"message\": \"Query error\"}"@
                    } else {
                        r.status == 200 && exists|q: Query|
                            body_query_ok(*b, q) && r.body@ == count_body(
                                #[trigger] count_docs(q, es, es.len() as int),
                            )
                    },
                }
            },
{
    match indices.find(index_name) {
        None => index_not_found_response(),
        Some(i) => {
            proof {
                lemma_unique_position(indices, i as int);
                assert(index_names(indices.indices@)[i as int] == index_name@);
            }
            let index = &indices.indices[i];
            match request_query(body) {
                None => query_error_response(),
                Some(q) => {
                    let n = index.count(&q);
                    proof {
                        if body is None {
                            lemma_match_all_counts_all(index.entries(), index.entries().len() as int);
                        }
                    }
                    let mut text = String::from_str("{\"count\": ");
                    let digits = decimal_text(n);
                    text.append(digits.as_str());
                    text.append("}");
                    ApiResponse { status: 200, body: text }
                },
            }
        },
    }
}

/// The hits of a search request, best first (every document where there
/// is no body), or the error response: 400 where the body holds no valid
/// query, 404 where there is no such index.
pub fn view_search(indices: &Indices, index_name: &str, body: Option<&Json>) -> (r: Result<Vec<Hit>, ApiResponse>)
    requires
        indices.wf(),
    ensures
        !index_names(indices.indices@).contains(index_name@) ==> r is Err && r->Err_0.status == 404
            && r->Err_0.body@ == "{\"message\": \"Index not found\"}"@,
        forall|i: int|
            0 <= i < indices.indices@.len() && (#[trigger] indices.indices@[i]).name@
                == index_name@ ==> {
                let es = indices.indices@[i].entries();
                match body {
                    Some(b) if body_query_bad(*b) => r is Err && r->Err_0.status == 400,
                    _ => r is Ok && exists|q: Query|
                        (match body {
                            None => q == Query::MatchAll { boost: SCORE_ONE },
                            Some(b) => body_query_ok(*b, q),
                        }) && r->Ok_0@.len() == count_docs(q, es, es.len() as int) && (forall|k: int|
                            0 <= k < r->Ok_0@.len() ==> true_hit(#[trigger] r->Ok_0@[k], q, es))
                            && (forall|a: int, c: int|
                            0 <= a < c < r->Ok_0@.len() ==> ranks_before(r->Ok_0@[a], r->Ok_0@[c])),
                }
            },
{
    match indices.find(index_name) {
        None => Err(index_not_found_response()),
        Some(i) => {
            proof {
                lemma_unique_position(indices, i as int);
                assert(index_names(indices.indices@)[i as int] == index_name@);
            }
            let index = &indices.indices[i];
            match request_query(body) {
                None => Err(query_error_response()),
                Some(q) => Ok(index.search(&q)),
            }
        },
    }
}

/// Count and search agree for a request: whatever query `view_count` and
/// `view_search` read from the same body, they match the same documents,
/// so the count of the one is the number of hits of the other.
pub proof fn lemma_count_and_search_views_agree(
    b: Json,
    q1: Query,
    q2: Query,
    es: Seq<(Seq<char>, Seq<(Seq<char>, ValueView)>)>,
)
    requires
        body_query_ok(b, q1),
        body_query_ok(b, q2),
    ensures
        count_docs(q1, es, es.len() as int) == count_docs(q2, es, es.len() as int),
{
    match b {
        Json::Object(ms) => {
            let j = member(ms@, "query"@)->Some_0;
            lemma_counts_agree(j, q1, q2, es, es.len() as int);
        },
        _ => {},
    }
}

proof fn lemma_counts_agree(
    j: Json,
    q1: Query,
    q2: Query,
    es: Seq<(Seq<char>, Seq<(Seq<char>, ValueView)>)>,
    n: int,
)
    requires
        denotes(j, q1),
        denotes(j, q2),
        0 <= n <= es.len(),
    ensures
        count_docs(q1, es, n) == count_docs(q2, es, n),
    decreases n,
{
    if n > 0 {
        lemma_counts_agree(j, q1, q2, es, n - 1);
        crate::parser::lemma_denoted_queries_agree(j, q1, q2, es[n - 1].1);
    }
}

proof fn lemma_match_all_counts_all(es: Seq<(Seq<char>, Seq<(Seq<char>, crate::value::ValueView)>)>, n: int)
    requires
        0 <= n <= es.len(),
    ensures
        count_docs(Query::MatchAll { boost: SCORE_ONE }, es, n) == n,
    decreases n,
{
    if n > 0 {
        lemma_match_all_counts_all(es, n - 1);
    }
}

/// The stored form of a record's members under a mapping's fields.
pub open spec fn converted_doc(members: Seq<(String, Json)>, fields: Seq<(String, crate::document::FieldMapping)>) -> Seq<(Seq<char>, ValueView)> {
    converted_fields(members, fields).push((all_field(), ValueView::TokenVector(all_terms(members, fields))))
}

/// Whether `after` is `before` with `(id, d)` stored: in place of the entry
/// with that id, or last.
pub open spec fn stored(
    before: Seq<(Seq<char>, Seq<(Seq<char>, ValueView)>)>,
    id: Seq<char>,
    d: Seq<(Seq<char>, ValueView)>,
    after: Seq<(Seq<char>, Seq<(Seq<char>, ValueView)>)>,
) -> bool {
    ||| exists|k: int| 0 <= k < before.len() && (#[trigger] before[k]).0 == id && after == before.update(k, (id, d))
    ||| (forall|k: int| 0 <= k < before.len() ==> (#[trigger] before[k]).0 != id) && after == before.push((id, d))
}

/// The response of a missing mapping.
pub fn mapping_not_found_response() -> (r: ApiResponse)
    ensures
        r.status == 404,
        r.body@ == "{\"message\": \"Mapping not found\"}"@,
{
    ApiResponse { status: 404, body: String::from_str("{\"message\": \"Mapping not found\"}") }
}

/// The response of a body that is not a JSON object.
pub fn not_an_object_response() -> (r: ApiResponse)
    ensures
        r.status == 400,
        r.body@ == "{\"message\": \"Body must be an object\"}"@,
{
    ApiResponse { status: 400, body: String::from_str("{\"message\": \"Body must be an object\"}") }
}

/// A plain 200 response with an empty object.
pub fn ok_response() -> (r: ApiResponse)
    ensures
        r.status == 200,
        r.body@ == "{}"@,
{
    ApiResponse { status: 200, body: String::from_str("{}") }
}

/// A 200 response that acknowledges a change.
pub fn acknowledged_response() -> (r: ApiResponse)
    ensures
        r.status == 200,
        r.body@ == "{\"acknowledged\": true}"@,
{
    ApiResponse { status: 200, body: String::from_str("{\"acknowledged\": true}") }
}

proof fn lemma_names_after_index_change(before: Seq<Index>, after: Seq<Index>, i: int)
    requires
        0 <= i < before.len(),
        after.len() == before.len(),
        after[i].name == before[i].name,
        forall|k: int| 0 <= k < before.len() && k != i ==> after[k] == before[k],
    ensures
        index_names(after) == index_names(before),
{
    assert(index_names(after) =~= index_names(before));
}

/// Converts a record under a mapping of an index and stores it under an
/// id. 404 where the index or the mapping is missing, 400 where the record
/// is not an object; no body stores nothing.
pub fn view_put_doc(
    indices: &mut Indices,
    index_name: &str,
    mapping_name: &str,
    doc_id: &str,
    body: Option<&Json>,
) -> (r: ApiResponse)
    requires
        old(indices).wf(),
    ensures
        final(indices).wf(),
        index_names(final(indices).indices@) == index_names(old(indices).indices@),
        r.status != 200 ==> final(indices).indices@ == old(indices).indices@,
        !index_names(old(indices).indices@).contains(index_name@) ==> r.status == 404
            && r.body@ == "{\"message\": \"Index not found\"}"@,
        forall|i: int|
            0 <= i < old(indices).indices@.len() && (#[trigger] old(indices).indices@[i]).name@
                == index_name@ ==> {
                let before = old(indices).indices@[i];
                let after = final(indices).indices@[i];
                if !keys_of(before.mappings@).contains(mapping_name@) {
                    r.status == 404 && r.body@ == "{\"message\": \"Mapping not found\"}"@
                } else {
                    match body {
                        None => r.status == 200 && final(indices).indices@ == old(indices).indices@,
                        Some(Json::Object(members)) => r.status == 200 && r.body@ == "{}"@
                            && final(indices).indices@ == old(indices).indices@.update(i, after)
                            && after.name == before.name
                            && after.mappings@ == before.mappings@ && after.aliases@ == before.aliases@
                            && exists|k: int|
                            0 <= k < before.mappings@.len() && (#[trigger] before.mappings@[k]).0@
                                == mapping_name@ && stored(
                                before.entries(),
                                doc_id@,
                                converted_doc(members@, before.mappings@[k].1.fields@),
                                after.entries(),
                            ),
                        Some(_) => r.status == 400,
                    }
                }
            },
{
    let i = match indices.find(index_name) {
        None => {
            return index_not_found_response();
        },
        Some(i) => i,
    };
    proof {
        lemma_unique_position(indices, i as int);
        assert(index_names(indices.indices@)[i as int] == index_name@);
    }
    let doc = match indices.indices[i].get_mapping(mapping_name) {
        None => {
            return mapping_not_found_response();
        },
        Some(mapping) => match body {
            None => {
                return ok_response();
            },
            Some(data) => match Document::from_json(data, mapping) {
                Ok(doc) => doc,
                Err(_) => {
                    return not_an_object_response();
                },
            },
        },
    };
    let ghost before = indices.indices@;
    indices.indices[i].put_document(doc_id, doc);
    proof {
        lemma_names_after_index_change(before, indices.indices@, i as int);
        assert forall|a: int, b: int| 0 <= a < b < indices.indices@.len() implies indices.indices@[a].name@ != indices.indices@[b].name@ by {
            assert(index_names(indices.indices@)[a] == index_names(before)[a]);
            assert(index_names(indices.indices@)[b] == index_names(before)[b]);
        }
        let bi = before[i as int];
        let ai = indices.indices@[i as int];
        if keys_of(bi.docs@).contains(doc_id@) {
            let k = choose|k: int| 0 <= k < bi.docs@.len() && (#[trigger] bi.docs@[k]).0@ == doc_id@
                && ai.entries() == bi.entries().update(k, (doc_id@, doc_view(doc.fields@)));
            assert(bi.entries()[k].0 == doc_id@);
        } else {
            assert forall|k: int| 0 <= k < bi.entries().len() implies (#[trigger] bi.entries()[k]).0 != doc_id@ by {
                assert(keys_of(bi.docs@)[k] == bi.docs@[k].0@);
            }
        }
    }
    ok_response()
}

/// Removes a document: 404 where the index, the mapping or the document is
/// missing.
pub fn view_delete_doc(indices: &mut Indices, index_name: &str, mapping_name: &str, doc_id: &str) -> (r: ApiResponse)
    requires
        old(indices).wf(),
    ensures
        final(indices).wf(),
        index_names(final(indices).indices@) == index_names(old(indices).indices@),
        r.status != 200 ==> final(indices).indices@ == old(indices).indices@,
        !index_names(old(indices).indices@).contains(index_name@) ==> r.status == 404
            && r.body@ == "{\"message\": \"Index not found\"}"@,
        forall|i: int|
            0 <= i < old(indices).indices@.len() && (#[trigger] old(indices).indices@[i]).name@
                == index_name@ ==> {
                let before = old(indices).indices@[i];
                let after = final(indices).indices@[i];
                if !keys_of(before.mappings@).contains(mapping_name@) {
                    r.status == 404 && r.body@ == "{\"message\": \"Mapping not found\"}"@
                } else if !keys_of(before.docs@).contains(doc_id@) {
                    r.status == 404 && r.body@ == "{\"message\": \"Document not found\"}"@
                } else {
                    r.status == 200 && r.body@ == "{}"@
                        && final(indices).indices@ == old(indices).indices@.update(i, after)
                        && after.name == before.name && after.mappings@ == before.mappings@
                        && after.aliases@ == before.aliases@ && exists|k: int|
                        0 <= k < before.docs@.len() && (#[trigger] before.docs@[k]).0@ == doc_id@
                            && after.entries() == before.entries().remove(k)
                }
            },
{
    let i = match indices.find(index_name) {
        None => {
            return index_not_found_response();
        },
        Some(i) => i,
    };
    proof {
        lemma_unique_position(indices, i as int);
        assert(index_names(indices.indices@)[i as int] == index_name@);
    }
    if indices.indices[i].get_mapping(mapping_name).is_none() {
        return mapping_not_found_response();
    }
    if indices.indices[i].get_document(doc_id).is_none() {
        return ApiResponse { status: 404, body: String::from_str("{\"message\": \"Document not found\"}") };
    }
    let ghost before = indices.indices@;
    let _removed = indices.indices[i].delete_document(doc_id);
    proof {
        lemma_names_after_index_change(before, indices.indices@, i as int);
        assert forall|a: int, b: int| 0 <= a < b < indices.indices@.len() implies indices.indices@[a].name@ != indices.indices@[b].name@ by {
            assert(index_names(indices.indices@)[a] == index_names(before)[a]);
            assert(index_names(indices.indices@)[b] == index_names(before)[b]);
        }
    }
    ok_response()
}

/// The stored fields of a document as a JSON object, or 404 where the
/// index, the mapping or the document is missing. Analyzed fields have no
/// JSON form and come out as `null`.
pub fn view_get_doc(indices: &Indices, index_name: &str, mapping_name: &str, doc_id: &str) -> (r: Result<Json, ApiResponse>)
    requires
        indices.wf(),
    ensures
        !index_names(indices.indices@).contains(index_name@) ==> r is Err && r->Err_0.status == 404
            && r->Err_0.body@ == "{\"message\": \"Index not found\"}"@,
        forall|i: int|
            0 <= i < indices.indices@.len() && (#[trigger] indices.indices@[i]).name@
                == index_name@ ==> {
                let index = indices.indices@[i];
                if !keys_of(index.mappings@).contains(mapping_name@) {
                    r is Err && r->Err_0.status == 404 && r->Err_0.body@ == "{\"message\": \"Mapping not found\"}"@
                } else if !keys_of(index.docs@).contains(doc_id@) {
                    r is Err && r->Err_0.status == 404 && r->Err_0.body@ == "{\"message\": \"Document not found\"}"@
                } else {
                    r is Ok && exists|k: int|
                        0 <= k < index.docs@.len() && (#[trigger] index.docs@[k]).0@ == doc_id@
                            && document_json(index.docs@[k].1, r->Ok_0)
                }
            },
{
    let i = match indices.find(index_name) {
        None => {
            return Err(index_not_found_response());
        },
        Some(i) => i,
    };
    proof {
        lemma_unique_position(indices, i as int);
        assert(index_names(indices.indices@)[i as int] == index_name@);
    }
    let index = &indices.indices[i];
    if index.get_mapping(mapping_name).is_none() {
        return Err(mapping_not_found_response());
    }
    match index.get_document(doc_id) {
        None => Err(ApiResponse { status: 404, body: String::from_str("{\"message\": \"Document not found\"}") }),
        Some(doc) => Ok(doc.to_json()),
    }
}

/// Whether `j` is the JSON object of a document's fields, in order, each
/// value in its JSON form.
pub open spec fn document_json(d: Document, j: Json) -> bool {
    match j {
        Json::Object(ms) => ms@.len() == d.fields@.len() && forall|k: int|
            0 <= k < ms@.len() ==> (#[trigger] ms@[k]).0@ == d.fields@[k].0@
                && crate::value::json_value(ms@[k].1) == crate::value::json_form(d.fields@[k].1@)
                && !(ms@[k].1 is Array) && !(ms@[k].1 is Object),
        _ => false,
    }
}

impl Document {
    /// The stored fields as a JSON object (see `document_json`).
    pub fn to_json(&self) -> (r: Json)
        ensures
            document_json(*self, r),
    {
        let mut ms: Vec<(String, Json)> = Vec::new();
        let mut k: usize = 0;
        while k < self.fields.len()
            invariant
                k <= self.fields.len(),
                ms@.len() == k,
                forall|a: int|
                    0 <= a < k ==> (#[trigger] ms@[a]).0@ == self.fields@[a].0@
                        && crate::value::json_value(ms@[a].1) == crate::value::json_form(self.fields@[a].1@)
                        && !(ms@[a].1 is Array) && !(ms@[a].1 is Object),
            decreases self.fields.len() - k,
        {
            let name = self.fields[k].0.clone();
            let value = self.fields[k].1.as_json();
            ms.push((name, value));
            k = k + 1;
        }
        Json::Object(ms)
    }
}

/// Replaces a mapping of an index with the definition under the mapping's
/// name in the body. 404 where the index is missing; 400 where the body
/// holds no valid definition; no body changes nothing.
pub fn view_put_mapping(indices: &mut Indices, index_name: &str, mapping_name: &str, body: Option<&Json>) -> (r: ApiResponse)
    requires
        old(indices).wf(),
    ensures
        final(indices).wf(),
        index_names(final(indices).indices@) == index_names(old(indices).indices@),
        r.status != 200 || body is None ==> final(indices).indices@ == old(indices).indices@,
        !index_names(old(indices).indices@).contains(index_name@) ==> r.status == 404
            && r.body@ == "{\"message\": \"Index not found\"}"@,
        forall|i: int|
            0 <= i < old(indices).indices@.len() && (#[trigger] old(indices).indices@[i]).name@
                == index_name@ && r.status == 200 && body is Some ==> {
                let before = old(indices).indices@[i];
                let after = final(indices).indices@[i];
                &&& final(indices).indices@ == old(indices).indices@.update(i, after)
                &&& after.name == before.name
                &&& after.docs@ == before.docs@
                &&& after.aliases@ == before.aliases@
                &&& forall|j: int|
                    0 <= j < before.mappings@.len() && (#[trigger] before.mappings@[j]).0@
                        != mapping_name@ ==> after.mappings@[j] == before.mappings@[j]
            },
        forall|i: int|
            0 <= i < old(indices).indices@.len() && (#[trigger] old(indices).indices@[i]).name@
                == index_name@ ==> match body {
                None => r.status == 200 && r.body@ == "{\"acknowledged\": false}"@,
                Some(b) => {
                    let def = match b {
                        Json::Object(ms) => member(ms@, mapping_name@),
                        _ => None,
                    };
                    match def {
                        Some(d) => (r.status == 200 <==> Mapping::from_json_ok(d)) && (r.status == 200
                            ==> r.body@ == "{\"acknowledged\": true}"@ && exists|k: int|
                            0 <= k < final(indices).indices@[i].mappings@.len()
                                && (#[trigger] final(indices).indices@[i].mappings@[k]).0@ == mapping_name@
                                && Mapping::denotes(d, final(indices).indices@[i].mappings@[k].1))
                            && (r.status != 200 ==> r.status == 400),
                        None => r.status == 400,
                    }
                },
            },
{
    let i = match indices.find(index_name) {
        None => {
            return index_not_found_response();
        },
        Some(i) => i,
    };
    proof {
        lemma_unique_position(indices, i as int);
        assert(index_names(indices.indices@)[i as int] == index_name@);
    }
    let data = match body {
        None => {
            return ApiResponse { status: 200, body: String::from_str("{\"acknowledged\": false}") };
        },
        Some(b) => b,
    };
    let def = match data {
        Json::Object(ms) => get_member(ms, mapping_name),
        _ => None,
    };
    let def = match def {
        Some(d) => d,
        None => {
            return ApiResponse { status: 400, body: String::from_str("{\"message\": \"Mapping definition missing\"}") };
        },
    };
    let mapping = match Mapping::from_json(def) {
        Ok(m) => m,
        Err(_) => {
            return ApiResponse { status: 400, body: String::from_str("{\"message\": \"Invalid mapping\"}") };
        },
    };
    let ghost before = indices.indices@;
    let ghost mv = mapping;
    proof {
        assert(Mapping::denotes(*def, mv));
    }
    indices.indices[i].put_mapping(mapping_name, mapping);
    proof {
        lemma_names_after_index_change(before, indices.indices@, i as int);
        assert forall|a: int, b: int| 0 <= a < b < indices.indices@.len() implies indices.indices@[a].name@ != indices.indices@[b].name@ by {
            assert(index_names(indices.indices@)[a] == index_names(before)[a]);
            assert(index_names(indices.indices@)[b] == index_names(before)[b]);
        }
    }
    acknowledged_response()
}

/// 200 where the index exists, 404 where it does not.
pub fn view_get_index(indices: &Indices, index_name: &str) -> (r: ApiResponse)
    ensures
        index_names(indices.indices@).contains(index_name@) ==> r.status == 200 && r.body@ == "{}"@,
        !index_names(indices.indices@).contains(index_name@) ==> r.status == 404
            && r.body@ == "{\"message\": \"Index not found\"}"@,
{
    match indices.find(index_name) {
        None => index_not_found_response(),
        Some(i) => {
            assert(index_names(indices.indices@)[i as int] == index_name@);
            ok_response()
        },
    }
}

/// Creates an empty index under a name, replacing any index of that name.
pub fn view_put_index(indices: &mut Indices, index_name: &str) -> (r: ApiResponse)
    requires
        old(indices).wf(),
    ensures
        final(indices).wf(),
        r.status == 200 && r.body@ == "{\"acknowledged\": true}"@,
        index_names(final(indices).indices@).contains(index_name@),
        exists|i: int|
            0 <= i < final(indices).indices@.len() && (#[trigger] final(indices).indices@[i]).name@ == index_name@
                && final(indices).indices@[i].docs@.len() == 0
                && final(indices).indices@[i].mappings@.len() == 0
                && final(indices).indices@[i].aliases@.len() == 0,
        index_names(old(indices).indices@).contains(index_name@) ==> exists|k: int|
            0 <= k < old(indices).indices@.len() && (#[trigger] old(indices).indices@[k]).name@
                == index_name@ && final(indices).indices@ == old(indices).indices@.update(
                k,
                final(indices).indices@[k],
            ),
        !index_names(old(indices).indices@).contains(index_name@) ==> final(indices).indices@
            == old(indices).indices@.push(final(indices).indices@.last()),
{
    let index = Index::new(index_name);
    indices.put_index(index);
    proof {
        let i = choose|i: int| 0 <= i < indices.indices@.len() && #[trigger] indices.indices@[i] == index;
        assert(index_names(indices.indices@)[i] == index_name@);
    }
    acknowledged_response()
}

/// Removes an index: 404 where there is none.
pub fn view_delete_index(indices: &mut Indices, index_name: &str) -> (r: ApiResponse)
    requires
        old(indices).wf(),
    ensures
        final(indices).wf(),
        !index_names(final(indices).indices@).contains(index_name@),
        index_names(old(indices).indices@).contains(index_name@) ==> r.status == 200
            && r.body@ == "{\"acknowledged\": true}"@ && exists|k: int|
            0 <= k < old(indices).indices@.len() && (#[trigger] old(indices).indices@[k]).name@
                == index_name@ && final(indices).indices@ == old(indices).indices@.remove(k),
        !index_names(old(indices).indices@).contains(index_name@) ==> r.status == 404
            && r.body@ == "{\"message\": \"Index not found\"}"@
            && final(indices).indices@ == old(indices).indices@,
{
    if indices.delete_index(index_name) {
        acknowledged_response()
    } else {
        index_not_found_response()
    }
}

/// The names of the indices that carry an alias, or 404 where none does.
pub fn view_get_global_alias(indices: &Indices, alias_name: &str) -> (r: Result<Vec<String>, ApiResponse>)
    ensures
        names_with_alias(indices.indices@, alias_name@).len() == 0 ==> r is Err
            && r->Err_0.status == 404 && r->Err_0.body@ == "{}"@,
        names_with_alias(indices.indices@, alias_name@).len() > 0 ==> r is Ok
            && r->Ok_0@.map_values(|s: String| s@) == names_with_alias(indices.indices@, alias_name@),
{
    let names = indices.indices_with_alias(alias_name);
    if names.len() == 0 {
        Err(ApiResponse { status: 404, body: String::from_str("{}") })
    } else {
        Ok(names)
    }
}

/// The name and parameters of a bulk action line: an object whose first
/// member names the action and holds an object of parameters.
pub open spec fn action_of(j: Json) -> Option<(Seq<char>, Seq<(String, Json)>)> {
    match j {
        Json::Object(ms) => if ms@.len() >= 1 {
            match ms@[0].1 {
                Json::Object(ps) => Some((ms@[0].0@, ps@)),
                _ => None,
            }
        } else {
            None
        },
        _ => None,
    }
}

pub open spec fn text_member_of(ps: Seq<(String, Json)>, key: Seq<char>) -> bool {
    match member(ps, key) {
        Some(Json::String(_)) => true,
        _ => false,
    }
}

/// Whether an action's parameters name an id, a type and an index.
pub open spec fn target_ok(ps: Seq<(String, Json)>) -> bool {
    text_member_of(ps, "_id"@) && text_member_of(ps, "_type"@) && text_member_of(ps, "_index"@)
}

/// The lines, from line `i` on, that hold `index` actions: each is followed
/// by its document's line; other actions stand alone.
pub open spec fn index_lines(lines: Seq<Json>, i: int) -> Seq<usize>
    decreases lines.len() + 1 - i,
{
    if i < 0 || i >= lines.len() {
        seq![]
    } else {
        match action_of(lines[i]) {
            Some((name, _)) => if name == "index"@ {
                seq![i as usize] + index_lines(lines, i + 2)
            } else {
                index_lines(lines, i + 1)
            },
            None => seq![],
        }
    }
}

fn text_of<'a>(ps: &'a Vec<(String, Json)>, key: &str) -> (r: Option<&'a String>)
    ensures
        r is Some == text_member_of(ps@, key@),
        r is Some ==> member(ps@, key@) == Some(Json::String(*r->Some_0)),
{
    match get_member(ps, key) {
        Some(Json::String(t)) => Some(t),
        _ => None,
    }
}

/// The documents of every index of a registry, by position.
pub open spec fn registry_entries(ixs: Seq<Index>) -> Seq<Seq<(Seq<char>, Seq<(Seq<char>, ValueView)>)>> {
    ixs.map_values(|ix: Index| ix.entries())
}

/// The position of the index named `name`.
pub open spec fn index_position(ixs: Seq<Index>, name: Seq<char>) -> Option<int> {
    if exists|k: int| 0 <= k < ixs.len() && (#[trigger] ixs[k]).name@ == name {
        Some(choose|k: int| 0 <= k < ixs.len() && (#[trigger] ixs[k]).name@ == name)
    } else {
        None
    }
}

/// The first mapping declared under `name`.
pub open spec fn mapping_named(ms: Seq<(String, Mapping)>, name: Seq<char>) -> Option<Mapping>
    decreases ms.len(),
{
    if ms.len() == 0 {
        None
    } else if ms[0].0@ == name {
        Some(ms[0].1)
    } else {
        mapping_named(ms.drop_first(), name)
    }
}

/// The entries with `(id, d)` stored in place of the first entry with that
/// id, or last.
pub open spec fn store_entry(
    es: Seq<(Seq<char>, Seq<(Seq<char>, ValueView)>)>,
    id: Seq<char>,
    d: Seq<(Seq<char>, ValueView)>,
) -> Seq<(Seq<char>, Seq<(Seq<char>, ValueView)>)>
    decreases es.len(),
{
    if es.len() == 0 {
        seq![(id, d)]
    } else if es[0].0 == id {
        es.update(0, (id, d))
    } else {
        seq![es[0]] + store_entry(es.drop_first(), id, d)
    }
}

/// The text of a parameter.
pub open spec fn param_text(ps: Seq<(String, Json)>, key: Seq<char>) -> Seq<char> {
    member(ps, key)->Some_0->String_0@
}

/// What a run of bulk lines comes to: the lines of the `index` actions
/// done, the documents of every index, and the first error, if any.
pub struct BulkOutcome {
    pub done: Seq<usize>,
    pub entries: Seq<Seq<(Seq<char>, Seq<(Seq<char>, ValueView)>)>>,
    pub error: Option<(u16, Seq<char>)>,
}

pub open spec fn bulk_failed(
    done: Seq<usize>,
    es: Seq<Seq<(Seq<char>, Seq<(Seq<char>, ValueView)>)>>,
    status: u16,
    body: Seq<char>,
) -> BulkOutcome {
    BulkOutcome { done, entries: es, error: Some((status, body)) }
}

/// The outcome of the bulk lines from line `i` on, over indices `ixs`
/// (whose names and mappings a bulk run keeps) holding documents `es`.
/// Each line is an action: an object whose first member names it and
/// holds parameters `_index`, `_type` and `_id`. An `index` action stores
/// the next line's record, converted under the named mapping, under its id
/// (in place of a document with that id, or last); other actions are
/// skipped. The first failing line stops the run, and what was stored
/// before it stays stored.
pub open spec fn bulk_outcome(
    lines: Seq<Json>,
    i: int,
    ixs: Seq<Index>,
    es: Seq<Seq<(Seq<char>, Seq<(Seq<char>, ValueView)>)>>,
    done: Seq<usize>,
) -> BulkOutcome
    decreases lines.len() + 1 - i,
{
    if i < 0 || i >= lines.len() {
        BulkOutcome { done, entries: es, error: None }
    } else {
        match action_of(lines[i]) {
            None => bulk_failed(done, es, 400, "{\"message\": \"Malformed bulk line\"}"@),
            Some((name, ps)) => if !target_ok(ps) {
                bulk_failed(done, es, 400, "{\"message\": \"Malformed bulk line\"}"@)
            } else if name == "index"@ {
                if i + 1 >= lines.len() {
                    bulk_failed(done, es, 400, "{\"message\": \"Malformed bulk line\"}"@)
                } else {
                    match index_position(ixs, param_text(ps, "_index"@)) {
                        None => bulk_failed(done, es, 404, "{\"message\": \"Index not found\"}"@),
                        Some(p) => match mapping_named(ixs[p].mappings@, param_text(ps, "_type"@)) {
                            None => bulk_failed(
                                done,
                                es,
                                404,
                                "{\"message\": \"Mapping not found\"}"@,
                            ),
                            Some(m) => match lines[i + 1] {
                                Json::Object(members) => bulk_outcome(
                                    lines,
                                    i + 2,
                                    ixs,
                                    es.update(
                                        p,
                                        store_entry(
                                            es[p],
                                            param_text(ps, "_id"@),
                                            converted_doc(members@, m.fields@),
                                        ),
                                    ),
                                    done.push(i as usize),
                                ),
                                _ => bulk_failed(
                                    done,
                                    es,
                                    400,
                                    "{\"message\": \"Body must be an object\"}"@,
                                ),
                            },
                        },
                    }
                }
            } else {
                bulk_outcome(lines, i + 1, ixs, es, done)
            },
        }
    }
}

proof fn lemma_index_position(ixs: Seq<Index>, name: Seq<char>, p: int)
    requires
        forall|a: int, b: int| 0 <= a < b < ixs.len() ==> ixs[a].name@ != ixs[b].name@,
        0 <= p < ixs.len(),
        ixs[p].name@ == name,
    ensures
        index_position(ixs, name) == Some(p),
{
    assert(ixs[p].name@ == name);
    let k = choose|k: int| 0 <= k < ixs.len() && (#[trigger] ixs[k]).name@ == name;
    if k < p {
        assert(ixs[k].name@ != ixs[p].name@);
    } else if k > p {
        assert(ixs[p].name@ != ixs[k].name@);
    }
}

proof fn lemma_mapping_named(ms: Seq<(String, Mapping)>, name: Seq<char>, k: int)
    requires
        forall|a: int, b: int| 0 <= a < b < ms.len() ==> ms[a].0@ != ms[b].0@,
        0 <= k < ms.len(),
        ms[k].0@ == name,
    ensures
        mapping_named(ms, name) == Some(ms[k].1),
    decreases k,
{
    if k > 0 {
        assert(ms[0].0@ != ms[k].0@);
        lemma_mapping_named(ms.drop_first(), name, k - 1);
    }
}

proof fn lemma_mapping_absent(ms: Seq<(String, Mapping)>, name: Seq<char>)
    requires
        forall|k: int| 0 <= k < ms.len() ==> (#[trigger] ms[k]).0@ != name,
    ensures
        mapping_named(ms, name) is None,
    decreases ms.len(),
{
    if ms.len() > 0 {
        assert(ms[0].0@ != name);
        assert forall|k: int| 0 <= k < ms.drop_first().len() implies (#[trigger] ms.drop_first()[k]).0@ != name by {
            assert(ms.drop_first()[k] == ms[k + 1]);
        }
        lemma_mapping_absent(ms.drop_first(), name);
    }
}

proof fn lemma_store_at(
    es: Seq<(Seq<char>, Seq<(Seq<char>, ValueView)>)>,
    id: Seq<char>,
    d: Seq<(Seq<char>, ValueView)>,
    k: int,
)
    requires
        0 <= k < es.len(),
        es[k].0 == id,
        forall|j: int| 0 <= j < k ==> (#[trigger] es[j]).0 != id,
    ensures
        store_entry(es, id, d) == es.update(k, (id, d)),
    decreases k,
{
    if k > 0 {
        assert(es[0].0 != id);
        let rest = es.drop_first();
        assert forall|j: int| 0 <= j < k - 1 implies (#[trigger] rest[j]).0 != id by {
            assert(rest[j] == es[j + 1]);
        }
        lemma_store_at(rest, id, d, k - 1);
        assert(seq![es[0]] + rest.update(k - 1, (id, d)) =~= es.update(k, (id, d)));
    } else {
        assert(store_entry(es, id, d) == es.update(0, (id, d)));
    }
}

proof fn lemma_store_last(
    es: Seq<(Seq<char>, Seq<(Seq<char>, ValueView)>)>,
    id: Seq<char>,
    d: Seq<(Seq<char>, ValueView)>,
)
    requires
        forall|j: int| 0 <= j < es.len() ==> (#[trigger] es[j]).0 != id,
    ensures
        store_entry(es, id, d) == es.push((id, d)),
    decreases es.len(),
{
    if es.len() > 0 {
        assert(es[0].0 != id);
        let rest = es.drop_first();
        assert forall|j: int| 0 <= j < rest.len() implies (#[trigger] rest[j]).0 != id by {
            assert(rest[j] == es[j + 1]);
        }
        lemma_store_last(rest, id, d);
        assert(seq![es[0]] + rest.push((id, d)) =~= es.push((id, d)));
    } else {
        assert(seq![(id, d)] =~= es.push((id, d)));
    }
}

proof fn lemma_store_entry(
    docs: Seq<(String, Document)>,
    after: Seq<(Seq<char>, Seq<(Seq<char>, ValueView)>)>,
    id: Seq<char>,
    d: Seq<(Seq<char>, ValueView)>,
)
    requires
        crate::index::unique(keys_of(docs)),
        keys_of(docs).contains(id) ==> exists|i: int|
            0 <= i < docs.len() && (#[trigger] docs[i]).0@ == id && after == entries_view(docs).update(i, (id, d)),
        !keys_of(docs).contains(id) ==> after == entries_view(docs).push((id, d)),
    ensures
        after == store_entry(entries_view(docs), id, d),
{
    let es = entries_view(docs);
    if keys_of(docs).contains(id) {
        let i = choose|i: int|
            0 <= i < docs.len() && (#[trigger] docs[i]).0@ == id && after == es.update(i, (id, d));
        assert(es[i].0 == id);
        assert forall|j: int| 0 <= j < i implies (#[trigger] es[j]).0 != id by {
            assert(keys_of(docs)[j] == es[j].0);
            assert(keys_of(docs)[i] == es[i].0);
            assert(keys_of(docs)[j] != keys_of(docs)[i]);
        }
        lemma_store_at(es, id, d, i);
    } else {
        assert forall|k: int| 0 <= k < es.len() implies (#[trigger] es[k]).0 != id by {
            assert(keys_of(docs)[k] == es[k].0);
        }
        lemma_store_last(es, id, d);
    }
}

/// Runs a sequence of bulk action lines, as `bulk_outcome` describes: the
/// indices keep their names, mappings and aliases, their documents become
/// the outcome's, and the result is the `index` action lines done, or the
/// response of the first failing line.
pub fn view_post_bulk(indices: &mut Indices, lines: &Vec<Json>) -> (r: Result<Vec<usize>, ApiResponse>)
    requires
        old(indices).wf(),
    ensures
        final(indices).wf(),
        index_names(final(indices).indices@) == index_names(old(indices).indices@),
        final(indices).indices@.len() == old(indices).indices@.len(),
        forall|p: int|
            0 <= p < old(indices).indices@.len() ==> (#[trigger] final(indices).indices@[p]).name
                == old(indices).indices@[p].name && final(indices).indices@[p].mappings@
                == old(indices).indices@[p].mappings@ && final(indices).indices@[p].aliases@
                == old(indices).indices@[p].aliases@,
        ({
            let o = bulk_outcome(
                lines@,
                0,
                old(indices).indices@,
                registry_entries(old(indices).indices@),
                seq![],
            );
            &&& registry_entries(final(indices).indices@) == o.entries
            &&& match r {
                Ok(done) => o.error is None && done@ == o.done,
                Err(resp) => o.error == Some((resp.status, resp.body@)),
            }
        }),
{
    let ghost ixs0 = indices.indices@;
    let ghost goal = bulk_outcome(lines@, 0, ixs0, registry_entries(ixs0), seq![]);
    let mut done: Vec<usize> = Vec::new();
    let mut i: usize = 0;
    while i < lines.len()
        invariant
            indices.wf(),
            ixs0 == old(indices).indices@,
            index_names(indices.indices@) == index_names(ixs0),
            indices.indices@.len() == ixs0.len(),
            forall|p: int|
                0 <= p < ixs0.len() ==> (#[trigger] indices.indices@[p]).name == ixs0[p].name
                    && indices.indices@[p].mappings@ == ixs0[p].mappings@
                    && indices.indices@[p].aliases@ == ixs0[p].aliases@,
            i <= lines.len(),
            goal == bulk_outcome(lines@, 0, ixs0, registry_entries(ixs0), seq![]),
            bulk_outcome(lines@, i as int, ixs0, registry_entries(indices.indices@), done@) == goal,
        decreases lines.len() - i,
    {
        let ghost es = registry_entries(indices.indices@);
        let (name, ps) = match &lines[i] {
            Json::Object(ms) => {
                if ms.len() == 0 {
                    return Err(malformed_line_response());
                }
                match &ms[0].1 {
                    Json::Object(ps) => (ms[0].0.as_str(), ps),
                    _ => {
                        return Err(malformed_line_response());
                    },
                }
            },
            _ => {
                return Err(malformed_line_response());
            },
        };
        let doc_id = text_of(ps, "_id");
        let doc_type = text_of(ps, "_type");
        let doc_index = text_of(ps, "_index");
        if doc_id.is_none() || doc_type.is_none() || doc_index.is_none() {
            return Err(malformed_line_response());
        }
        let doc_id = doc_id.unwrap();
        let doc_type = doc_type.unwrap();
        let doc_index = doc_index.unwrap();
        if same_text(name, "index") {
            if i + 1 >= lines.len() {
                return Err(malformed_line_response());
            }
            let p = match indices.find(doc_index.as_str()) {
                Some(p) => p,
                None => {
                    proof {
                        if exists|k: int| 0 <= k < ixs0.len() && (#[trigger] ixs0[k]).name@ == doc_index@ {
                            let k = choose|k: int| 0 <= k < ixs0.len() && (#[trigger] ixs0[k]).name@ == doc_index@;
                            assert(index_names(ixs0)[k] == doc_index@);
                            assert(index_names(indices.indices@)[k] == doc_index@);
                        }
                    }
                    return Err(index_not_found_response());
                },
            };
            proof {
                assert(ixs0[p as int].name@ == doc_index@);
                assert forall|a: int, b: int| 0 <= a < b < ixs0.len() implies ixs0[a].name@ != ixs0[b].name@ by {
                    assert(indices.indices@[a].name@ != indices.indices@[b].name@);
                }
                lemma_index_position(ixs0, doc_index@, p as int);
                assert(indices.indices@[p as int].wf());
            }
            let doc = match indices.indices[p].get_mapping(doc_type.as_str()) {
                None => {
                    proof {
                        let ms = ixs0[p as int].mappings@;
                        assert forall|k: int| 0 <= k < ms.len() implies (#[trigger] ms[k]).0@ != doc_type@ by {
                            assert(keys_of(ms)[k] == ms[k].0@);
                        }
                        lemma_mapping_absent(ms, doc_type@);
                    }
                    return Err(mapping_not_found_response());
                },
                Some(m) => {
                    proof {
                        let ms = ixs0[p as int].mappings@;
                        let k = choose|k: int| 0 <= k < ms.len() && (#[trigger] ms[k]).0@ == doc_type@ && ms[k].1 == *m;
                        assert forall|a: int, b: int| 0 <= a < b < ms.len() implies ms[a].0@ != ms[b].0@ by {
                            assert(keys_of(ms)[a] == ms[a].0@);
                            assert(keys_of(ms)[b] == ms[b].0@);
                        }
                        lemma_mapping_named(ms, doc_type@, k);
                    }
                    match Document::from_json(&lines[i + 1], m) {
                        Ok(doc) => doc,
                        Err(_) => {
                            return Err(not_an_object_response());
                        },
                    }
                },
            };
            let ghost before = indices.indices@;
            let ghost dv = doc_view(doc.fields@);
            indices.indices[p].put_document(doc_id.as_str(), doc);
            proof {
                lemma_store_entry(before[p as int].docs@, indices.indices@[p as int].entries(), doc_id@, dv);
                assert(registry_entries(indices.indices@) =~= es.update(
                    p as int,
                    store_entry(es[p as int], doc_id@, dv),
                ));
                assert forall|a: int, b: int| 0 <= a < b < indices.indices@.len() implies indices.indices@[a].name@ != indices.indices@[b].name@ by {
                    assert(before[a].name@ != before[b].name@);
                }
                assert forall|q: int| 0 <= q < indices.indices@.len() implies (#[trigger] indices.indices@[q]).wf() by {
                    assert(before[q].wf());
                }
                assert(index_names(indices.indices@) =~= index_names(before));
            }
            done.push(i);
            i = i + 2;
        } else {
            i = i + 1;
        }
    }
    Ok(done)
}

/// The response of a bulk line that is not a well-formed action.
pub fn malformed_line_response() -> (r: ApiResponse)
    ensures
        r.status == 400,
        r.body@ == "{\"message\": \"Malformed bulk line\"}"@,
{
    ApiResponse { status: 400, body: String::from_str("{\"message\": \"Malformed bulk line\"}") }
}

/// The greeting of the root path.
pub fn view_home() -> (r: ApiResponse)
    ensures
        r.status == 200,
        r.body@ == "Hello World!"@,
{
    ApiResponse { status: 200, body: String::from_str("Hello World!") }
}

/// Acknowledges a refresh: documents are searchable as soon as they are
/// stored, so there is nothing to do.
pub fn view_post_refresh(indices: &Indices, index_name: &str) -> (r: ApiResponse)
    ensures
        r.status == 200,
        r.body@ == "{\"acknowledged\": true}"@,
{
    acknowledged_response()
}

/// The response of a missing index.
pub fn index_not_found_response() -> (r: ApiResponse)
    ensures
        r.status == 404,
        r.body@ == "{\"message\": \"Index not found\"}"@,
{
    ApiResponse { status: 404, body: String::from_str("{\"message\": \"Index not found\"}") }
}

/// The aliases of one index: an empty object.
pub fn view_get_alias_list(indices: &Indices, index_name: &str) -> (r: ApiResponse)
    ensures
        r.status == 200,
        r.body@ == "{}"@,
{
    ApiResponse { status: 200, body: String::from_str("{}") }
}

/// Whether an index carries an alias: 200 if it does, 404 if it does not
/// or if there is no such index.
pub fn view_get_alias(indices: &Indices, index_name: &str, alias_name: &str) -> (r: ApiResponse)
    requires
        indices.wf(),
    ensures
        !index_names(indices.indices@).contains(index_name@) ==> r.status == 404
            && r.body@ == "{\"message\": \"Index not found\"}"@,
        forall|i: int|
            0 <= i < indices.indices@.len() && (#[trigger] indices.indices@[i]).name@
                == index_name@ ==> r.body@ == "{}"@ && (r.status == 200 <==> indices.indices@[i].alias_names().contains(alias_name@))
                && (r.status == 200 || r.status == 404),
{
    match indices.find(index_name) {
        None => index_not_found_response(),
        Some(i) => {
            proof {
                lemma_unique_position(indices, i as int);
                assert(index_names(indices.indices@)[i as int] == index_name@);
            }
            let found = indices.indices[i].has_alias(alias_name);
            let r = if found {
                ApiResponse { status: 200, body: String::from_str("{}") }
            } else {
                ApiResponse { status: 404, body: String::from_str("{}") }
            };
            assert(found == indices.indices@[i as int].alias_names().contains(alias_name@));
            r
        },
    }
}

/// Tags an index with an alias: 404 if there is no such index.
pub fn view_put_alias(indices: &mut Indices, index_name: &str, alias_name: &str) -> (r: ApiResponse)
    requires
        old(indices).wf(),
    ensures
        final(indices).wf(),
        index_names(final(indices).indices@) == index_names(old(indices).indices@),
        !index_names(old(indices).indices@).contains(index_name@) ==> r.status == 404
            && r.body@ == "{\"message\": \"Index not found\"}"@
            && final(indices).indices@ == old(indices).indices@,
        forall|i: int|
            0 <= i < old(indices).indices@.len() && (#[trigger] old(indices).indices@[i]).name@
                == index_name@ ==> r.status == 200 && r.body@ == "{\"acknowledged\": true}"@
                && final(indices).indices@[i].alias_names().contains(alias_name@)
                && final(indices).indices@ == old(indices).indices@.update(i, final(indices).indices@[i])
                && final(indices).indices@[i].name == old(indices).indices@[i].name
                && final(indices).indices@[i].docs@ == old(indices).indices@[i].docs@
                && final(indices).indices@[i].mappings@ == old(indices).indices@[i].mappings@
                && (old(indices).indices@[i].alias_names().contains(alias_name@)
                    ==> final(indices).indices@[i].aliases@ == old(indices).indices@[i].aliases@)
                && (!old(indices).indices@[i].alias_names().contains(alias_name@)
                    ==> final(indices).indices@[i].alias_names()
                    == old(indices).indices@[i].alias_names().push(alias_name@)),
{
    match indices.find(index_name) {
        None => index_not_found_response(),
        Some(i) => {
            proof {
                lemma_unique_position(indices, i as int);
                assert(index_names(indices.indices@)[i as int] == index_name@);
            }
            let ghost before = indices.indices@;
            indices.indices[i].put_alias(alias_name);
            proof {
                let after = indices.indices@[i as int];
                if !before[i as int].alias_names().contains(alias_name@) {
                    assert(after.alias_names()[after.alias_names().len() - 1] == alias_name@);
                }
                assert(index_names(indices.indices@) =~= index_names(before));
                assert forall|a: int, b: int| 0 <= a < b < indices.indices@.len() implies indices.indices@[a].name@ != indices.indices@[b].name@ by {
                    assert(index_names(indices.indices@)[a] == index_names(before)[a]);
                    assert(index_names(indices.indices@)[b] == index_names(before)[b]);
                }
            }
            ApiResponse { status: 200, body: String::from_str("{\"acknowledged\": true}") }
        },
    }
}

proof fn lemma_unique_position(indices: &Indices, i: int)
    requires
        indices.wf(),
        0 <= i < indices.indices@.len(),
    ensures
        forall|j: int|
            0 <= j < indices.indices@.len() && (#[trigger] indices.indices@[j]).name@
                == indices.indices@[i].name@ ==> j == i,
{
}

} // verus!
