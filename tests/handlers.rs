use rusticsearch::analysis::{Edge, FilterSpec, TokenizerSpec};
use rusticsearch::api::{
    view_delete_doc, view_delete_index, view_get_doc, view_get_global_alias, view_get_index, view_post_bulk,
    view_put_alias, view_put_doc, view_put_index, view_put_mapping, Indices,
};
use rusticsearch::query::{Query, TermMatcher};
use rusticsearch::value::Json;

fn s(x: &str) -> String {
    x.to_string()
}

fn obj(members: Vec<(&str, Json)>) -> Json {
    Json::Object(members.into_iter().map(|(k, v)| (s(k), v)).collect())
}

fn text(x: &str) -> Json {
    Json::String(s(x))
}

fn setup() -> Indices {
    let mut indices = Indices::new();
    let r = view_put_index(&mut indices, "books");
    assert_eq!((r.status, r.body.as_str()), (200, "{\"acknowledged\": true}"));
    let def = obj(vec![("book", obj(vec![("title", obj(vec![("type", text("string"))]))]))]);
    let r = view_put_mapping(&mut indices, "books", "book", Some(&def));
    assert_eq!((r.status, r.body.as_str()), (200, "{\"acknowledged\": true}"));
    indices
}

fn fox_count(indices: &Indices) -> usize {
    let q = Query::MatchTerm { field: s("title"), term: s("fox"), matcher: TermMatcher::Exact, boost: 1000 };
    indices.indices[0].count(&q)
}

#[test]
fn put_get_delete_document() {
    let mut indices = setup();
    let doc = obj(vec![("title", text("Red Fox")), ("year", Json::U64(1999))]);
    let r = view_put_doc(&mut indices, "books", "book", "1", Some(&doc));
    assert_eq!((r.status, r.body.as_str()), (200, "{}"));
    assert_eq!(fox_count(&indices), 1);

    let got = view_get_doc(&indices, "books", "book", "1").unwrap();
    assert_eq!(
        got,
        obj(vec![("title", Json::Null), ("year", Json::U64(1999)), ("_all", Json::Null)])
    );

    let r = view_put_doc(&mut indices, "books", "book", "1", Some(&obj(vec![("title", text("Blue Hen"))])));
    assert_eq!(r.status, 200);
    assert_eq!(fox_count(&indices), 0);
    assert_eq!(indices.indices[0].docs.len(), 1);

    let r = view_delete_doc(&mut indices, "books", "book", "1");
    assert_eq!((r.status, r.body.as_str()), (200, "{}"));
    let r = view_delete_doc(&mut indices, "books", "book", "1");
    assert_eq!((r.status, r.body.as_str()), (404, "{\"message\": \"Document not found\"}"));
    let e = view_get_doc(&indices, "books", "book", "1").unwrap_err();
    assert_eq!((e.status, e.body.as_str()), (404, "{\"message\": \"Document not found\"}"));
}

#[test]
fn document_errors() {
    let mut indices = setup();
    let doc = obj(vec![("title", text("x"))]);
    let r = view_put_doc(&mut indices, "films", "book", "1", Some(&doc));
    assert_eq!((r.status, r.body.as_str()), (404, "{\"message\": \"Index not found\"}"));
    let r = view_put_doc(&mut indices, "books", "film", "1", Some(&doc));
    assert_eq!((r.status, r.body.as_str()), (404, "{\"message\": \"Mapping not found\"}"));
    let r = view_put_doc(&mut indices, "books", "book", "1", Some(&Json::Array(vec![])));
    assert_eq!(r.status, 400);
    let r = view_put_doc(&mut indices, "books", "book", "1", None);
    assert_eq!(r.status, 200);
    assert_eq!(indices.indices[0].docs.len(), 0);
    let e = view_get_doc(&indices, "books", "film", "1").unwrap_err();
    assert_eq!(e.status, 404);
    let r = view_delete_doc(&mut indices, "nope", "book", "1");
    assert_eq!(r.status, 404);
}

#[test]
fn mapping_handler_errors() {
    let mut indices = setup();
    let r = view_put_mapping(&mut indices, "books", "film", None);
    assert_eq!((r.status, r.body.as_str()), (200, "{\"acknowledged\": false}"));
    let r = view_put_mapping(&mut indices, "books", "film", Some(&obj(vec![])));
    assert_eq!(r.status, 400);
    let bad = obj(vec![("film", obj(vec![("t", obj(vec![("type", text("geo"))]))]))]);
    let r = view_put_mapping(&mut indices, "books", "film", Some(&bad));
    assert_eq!(r.status, 400);
    let r = view_put_mapping(&mut indices, "nope", "film", Some(&bad));
    assert_eq!(r.status, 404);
    assert_eq!(indices.indices[0].mappings.len(), 1);
}

#[test]
fn index_handlers() {
    let mut indices = setup();
    assert_eq!(view_get_index(&indices, "books").status, 200);
    assert_eq!(view_get_index(&indices, "films").status, 404);
    let r = view_delete_index(&mut indices, "books");
    assert_eq!((r.status, r.body.as_str()), (200, "{\"acknowledged\": true}"));
    let r = view_delete_index(&mut indices, "books");
    assert_eq!((r.status, r.body.as_str()), (404, "{\"message\": \"Index not found\"}"));
    assert_eq!(view_get_index(&indices, "books").status, 404);
}

#[test]
fn global_alias_lookup() {
    let mut indices = setup();
    view_put_index(&mut indices, "films");
    view_put_index(&mut indices, "songs");
    view_put_alias(&mut indices, "songs", "media");
    view_put_alias(&mut indices, "books", "media");
    assert_eq!(view_get_global_alias(&indices, "media").unwrap(), vec![s("books"), s("songs")]);
    let e = view_get_global_alias(&indices, "none").unwrap_err();
    assert_eq!((e.status, e.body.as_str()), (404, "{}"));
}

fn action(name: &str, id: &str) -> Json {
    obj(vec![(name, obj(vec![("_id", text(id)), ("_type", text("book")), ("_index", text("books"))]))])
}

#[test]
fn bulk_indexing() {
    let mut indices = setup();
    let lines = vec![
        action("index", "1"),
        obj(vec![("title", text("Red Fox"))]),
        action("delete", "9"),
        action("index", "2"),
        obj(vec![("title", text("Grey Fox"))]),
    ];
    assert_eq!(view_post_bulk(&mut indices, &lines), Ok(vec![0, 3]));
    assert_eq!(fox_count(&indices), 2);

    let missing_doc = vec![action("index", "3")];
    assert_eq!(view_post_bulk(&mut indices, &missing_doc).unwrap_err().status, 400);
    let malformed = vec![text("index")];
    assert_eq!(view_post_bulk(&mut indices, &malformed).unwrap_err().status, 400);
    let no_target = vec![obj(vec![("index", obj(vec![("_id", text("1"))]))]), obj(vec![])];
    assert_eq!(view_post_bulk(&mut indices, &no_target).unwrap_err().status, 400);
    let wrong_index = vec![
        obj(vec![("index", obj(vec![("_id", text("1")), ("_type", text("book")), ("_index", text("films"))]))]),
        obj(vec![]),
    ];
    assert_eq!(view_post_bulk(&mut indices, &wrong_index).unwrap_err().status, 404);
    assert_eq!(view_post_bulk(&mut indices, &vec![]), Ok(vec![]));
}

fn members(j: &Json) -> Vec<(String, Json)> {
    match j {
        Json::Object(ms) => ms.iter().map(|(k, v)| (k.clone(), copy(v))).collect(),
        _ => panic!("not an object"),
    }
}

fn copy(j: &Json) -> Json {
    match j {
        Json::String(t) => Json::String(t.clone()),
        Json::U64(n) => Json::U64(*n),
        _ => panic!("unexpected value"),
    }
}

#[test]
fn spec_json_forms() {
    assert_eq!(members(&TokenizerSpec::Standard.to_json()), vec![(s("type"), text("standard"))]);
    assert_eq!(members(&TokenizerSpec::Lowercase.to_json()), vec![(s("type"), text("lowercase"))]);
    assert_eq!(members(&FilterSpec::ASCIIFolding.to_json()), vec![(s("type"), text("asciifolding"))]);
    assert_eq!(
        members(&TokenizerSpec::NGram { min_size: 2, max_size: 3, edge: Edge::Neither }.to_json()),
        vec![(s("type"), text("ngram")), (s("min_gram"), Json::U64(2)), (s("max_gram"), Json::U64(3))]
    );
    assert_eq!(
        members(&FilterSpec::NGram { min_size: 1, max_size: 5, edge: Edge::Left }.to_json()),
        vec![
            (s("type"), text("edgeNGram")),
            (s("side"), text("front")),
            (s("min_gram"), Json::U64(1)),
            (s("max_gram"), Json::U64(5)),
        ]
    );
    assert_eq!(
        members(&FilterSpec::NGram { min_size: 1, max_size: 5, edge: Edge::Right }.to_json())[1],
        (s("side"), text("back"))
    );
}

#[test]
fn home_and_refresh() {
    let indices = setup();
    let r = rusticsearch::api::view_home();
    assert_eq!((r.status, r.body.as_str()), (200, "Hello World!"));
    let r = rusticsearch::api::view_post_refresh(&indices, "books");
    assert_eq!((r.status, r.body.as_str()), (200, "{\"acknowledged\": true}"));
}

#[test]
fn bulk_keeps_earlier_documents_on_error() {
    let mut indices = setup();
    let lines = vec![
        action("index", "1"),
        obj(vec![("title", text("Red Fox"))]),
        obj(vec![("index", obj(vec![("_id", text("2")), ("_type", text("film")), ("_index", text("books"))]))]),
        obj(vec![("title", text("Grey Fox"))]),
        action("index", "3"),
        obj(vec![("title", text("Blue Fox"))]),
    ];
    let e = view_post_bulk(&mut indices, &lines).unwrap_err();
    assert_eq!((e.status, e.body.as_str()), (404, "{\"message\": \"Mapping not found\"}"));
    assert_eq!(fox_count(&indices), 1);
    assert_eq!(indices.indices[0].docs[0].0, "1");
    let not_object = vec![action("index", "4"), text("plain")];
    let e = view_post_bulk(&mut indices, &not_object).unwrap_err();
    assert_eq!((e.status, e.body.as_str()), (400, "{\"message\": \"Body must be an object\"}"));
}

#[test]
fn bulk_replaces_repeated_ids() {
    let mut indices = setup();
    let lines = vec![
        action("index", "1"),
        obj(vec![("title", text("Red Fox"))]),
        action("index", "1"),
        obj(vec![("title", text("Red Hen"))]),
    ];
    assert_eq!(view_post_bulk(&mut indices, &lines), Ok(vec![0, 2]));
    assert_eq!(indices.indices[0].docs.len(), 1);
    assert_eq!(fox_count(&indices), 0);
}

#[test]
fn handlers_keep_other_indices() {
    let mut indices = setup();
    view_put_index(&mut indices, "films");
    view_put_alias(&mut indices, "films", "media");
    let doc = obj(vec![("title", text("Red Fox"))]);
    view_put_doc(&mut indices, "books", "book", "1", Some(&doc));
    let def = obj(vec![("extra", obj(vec![("n", obj(vec![("type", text("long"))]))]))]);
    view_put_mapping(&mut indices, "books", "extra", Some(&def));
    assert_eq!(indices.indices[0].docs.len(), 1);
    assert_eq!(indices.indices[0].mappings.len(), 2);
    assert_eq!(indices.indices[1].aliases.len(), 1);
    let r = view_delete_index(&mut indices, "books");
    assert_eq!(r.status, 200);
    assert_eq!(indices.indices.len(), 1);
    assert_eq!(indices.indices[0].name, "films");
    assert_eq!(indices.indices[0].aliases, vec![s("media")]);
}
