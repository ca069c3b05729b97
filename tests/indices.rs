use rusticsearch::api::{view_get_alias, view_get_alias_list, view_put_alias, Indices};
use rusticsearch::document::{Document, FieldMapping, FieldType, Mapping};
use rusticsearch::index::Index;
use rusticsearch::query::{Query, TermMatcher, SCORE_ONE};
use rusticsearch::value::{Json, Value};

fn s(x: &str) -> String {
    x.to_string()
}

fn mapping() -> Mapping {
    Mapping { fields: vec![(s("title"), FieldMapping { field_type: FieldType::Text, analyzer: None, is_in_all: true })] }
}

fn title_doc(title: &str) -> Document {
    Document::from_json(&Json::Object(vec![(s("title"), Json::String(s(title)))]), &mapping()).unwrap()
}

fn term(t: &str, boost: u64) -> Query {
    Query::MatchTerm { field: s("_all"), term: s(t), matcher: TermMatcher::Exact, boost }
}

fn sample() -> Index {
    let mut index = Index::new("books");
    index.put_mapping("book", mapping());
    index.put_document("1", title_doc("red fox"));
    index.put_document("2", title_doc("blue fox"));
    index.put_document("3", title_doc("red hen"));
    index.put_document("4", title_doc("red red"));
    index
}

#[test]
fn count_agrees_with_search() {
    let index = sample();
    let queries = vec![
        term("red", 1000),
        term("fox", 1000),
        term("cow", 1000),
        Query::MatchAll { boost: 1000 },
        Query::MatchNone,
    ];
    for q in queries {
        assert_eq!(index.count(&q), index.search(&q).len());
    }
    assert_eq!(index.count(&term("red", 1000)), 3);
}

#[test]
fn search_orders_by_score_then_insertion() {
    let index = sample();
    let q = Query::Bool {
        must: vec![],
        must_not: vec![],
        should: vec![term("red", 1000), term("fox", 2000)],
        filter: vec![],
        minimum_should_match: 1,
        boost: SCORE_ONE,
    };
    let hits = index.search(&q);
    let ids: Vec<&str> = hits.iter().map(|h| h.id.as_str()).collect();
    assert_eq!(ids, vec!["1", "2", "3", "4"]);
    let scores: Vec<u64> = hits.iter().map(|h| h.score).collect();
    assert_eq!(scores, vec![3000, 2000, 1000, 1000]);
    assert_eq!(hits[2].position, 2);
}

#[test]
fn put_document_replaces_whole_document() {
    let mut index = sample();
    index.put_document("1", title_doc("green owl"));
    assert_eq!(index.docs.len(), 4);
    assert_eq!(index.docs[0].0, "1");
    let d = index.get_document("1").unwrap();
    assert_eq!(d, &title_doc("green owl"));
    assert_eq!(d.get("title"), Some(&Value::TokenVector(vec![s("green"), s("owl")])));
    assert_eq!(index.count(&term("fox", 1000)), 1);
}

#[test]
fn delete_document() {
    let mut index = sample();
    assert!(index.delete_document("2"));
    assert!(!index.delete_document("2"));
    assert!(index.get_document("2").is_none());
    assert_eq!(index.count(&Query::MatchAll { boost: 1000 }), 3);
}

#[test]
fn mappings_are_replaced() {
    let mut index = sample();
    assert!(index.get_mapping("book").is_some());
    assert!(index.get_mapping("film").is_none());
    index.put_mapping("book", Mapping { fields: vec![] });
    assert_eq!(index.mappings.len(), 1);
    assert_eq!(index.get_mapping("book"), Some(&Mapping { fields: vec![] }));
}

#[test]
fn alias_views() {
    let mut indices = Indices::new();
    indices.put_index(sample());
    indices.put_index(Index::new("films"));

    let r = view_get_alias(&indices, "books", "library");
    assert_eq!((r.status, r.body.as_str()), (404, "{}"));

    let r = view_put_alias(&mut indices, "books", "library");
    assert_eq!((r.status, r.body.as_str()), (200, "{\"acknowledged\": true}"));
    let r = view_put_alias(&mut indices, "books", "library");
    assert_eq!(r.status, 200);
    assert_eq!(indices.indices[0].aliases.len(), 1);

    let r = view_get_alias(&indices, "books", "library");
    assert_eq!((r.status, r.body.as_str()), (200, "{}"));

    let r = view_get_alias(&indices, "nope", "library");
    assert_eq!((r.status, r.body.as_str()), (404, "{\"message\": \"Index not found\"}"));
    let r = view_put_alias(&mut indices, "nope", "library");
    assert_eq!(r.status, 404);

    let r = view_get_alias_list(&indices, "books");
    assert_eq!((r.status, r.body.as_str()), (200, "{}"));

    assert_eq!(indices.indices_with_alias("library"), vec![s("books")]);
    assert!(indices.indices_with_alias("other").is_empty());
}

#[test]
fn registry_put_and_delete() {
    let mut indices = Indices::new();
    indices.put_index(Index::new("a"));
    indices.put_index(Index::new("b"));
    indices.put_index(sample());
    indices.put_index(Index::new("a"));
    assert_eq!(indices.indices.len(), 3);
    assert_eq!(indices.find("books"), Some(2));
    assert!(indices.delete_index("a"));
    assert!(!indices.delete_index("a"));
    assert_eq!(indices.find("a"), None);
    assert_eq!(indices.find("books"), Some(1));
}
