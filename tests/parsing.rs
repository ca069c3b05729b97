use rusticsearch::analysis::AnalyzerSpec;
use rusticsearch::api::{decimal_text, view_count, view_search, Indices};
use rusticsearch::document::{Document, FieldMapping, FieldType, Mapping, MappingParseError};
use rusticsearch::index::Index;
use rusticsearch::parser::parse_query;
use rusticsearch::query::{Query, QueryParseError, TermMatcher, SCORE_ONE};
use rusticsearch::value::Json;

fn s(x: &str) -> String {
    x.to_string()
}

fn obj(members: Vec<(&str, Json)>) -> Json {
    Json::Object(members.into_iter().map(|(k, v)| (s(k), v)).collect())
}

fn text(x: &str) -> Json {
    Json::String(s(x))
}

fn term_json(field: &str, value: &str) -> Json {
    obj(vec![("term", obj(vec![(field, text(value))]))])
}

fn term(field: &str, value: &str) -> Query {
    Query::MatchTerm { field: s(field), term: s(value), matcher: TermMatcher::Exact, boost: SCORE_ONE }
}

#[test]
fn parses_match_all_and_none() {
    assert_eq!(parse_query(&obj(vec![("match_all", obj(vec![]))])), Ok(Query::MatchAll { boost: SCORE_ONE }));
    assert_eq!(
        parse_query(&obj(vec![("match_all", obj(vec![("boost", Json::U64(3))]))])),
        Ok(Query::MatchAll { boost: 3000 })
    );
    assert_eq!(parse_query(&obj(vec![("match_none", obj(vec![]))])), Ok(Query::MatchNone));
}

#[test]
fn parses_term_and_prefix() {
    assert_eq!(parse_query(&term_json("title", "fox")), Ok(term("title", "fox")));
    let long_form = obj(vec![(
        "prefix",
        obj(vec![("title", obj(vec![("value", text("fo")), ("boost", Json::I64(2))]))]),
    )]);
    assert_eq!(
        parse_query(&long_form),
        Ok(Query::MatchTerm { field: s("title"), term: s("fo"), matcher: TermMatcher::Prefix, boost: 2000 })
    );
}

#[test]
fn parses_bool() {
    let q = obj(vec![(
        "bool",
        obj(vec![
            ("must", term_json("a", "x")),
            ("should", Json::Array(vec![term_json("b", "y"), term_json("c", "z")])),
        ]),
    )]);
    assert_eq!(
        parse_query(&q),
        Ok(Query::Bool {
            must: vec![term("a", "x")],
            must_not: vec![],
            should: vec![term("b", "y"), term("c", "z")],
            filter: vec![],
            minimum_should_match: 1,
            boost: SCORE_ONE,
        })
    );
    let with_msm = obj(vec![(
        "bool",
        obj(vec![("filter", Json::Array(vec![])), ("minimum_should_match", Json::U64(2)), ("boost", Json::U64(4))]),
    )]);
    assert_eq!(
        parse_query(&with_msm),
        Ok(Query::Bool { must: vec![], must_not: vec![], should: vec![], filter: vec![], minimum_should_match: 2, boost: 4000 })
    );
}

#[test]
fn parses_dis_max_with_normalization() {
    let none = obj(vec![("dis_max", obj(vec![("queries", Json::Array(vec![]))]))]);
    assert_eq!(parse_query(&none), Ok(Query::MatchNone));
    let one = obj(vec![("dis_max", obj(vec![("queries", Json::Array(vec![term_json("a", "x")]))]))]);
    assert_eq!(parse_query(&one), Ok(term("a", "x")));
    let two = obj(vec![(
        "dis_max",
        obj(vec![("queries", Json::Array(vec![term_json("a", "x"), term_json("b", "y")])), ("boost", Json::U64(2))]),
    )]);
    assert_eq!(
        parse_query(&two),
        Ok(Query::BoostScore {
            query: Box::new(Query::DisjunctionMax { queries: vec![term("a", "x"), term("b", "y")], boost: SCORE_ONE }),
            mul: 2000,
            add: 0,
        })
    );
}

#[test]
fn parse_errors() {
    assert_eq!(parse_query(&Json::Null), Err(QueryParseError::Malformed));
    assert_eq!(parse_query(&obj(vec![])), Err(QueryParseError::Malformed));
    assert_eq!(parse_query(&obj(vec![("fuzzy", obj(vec![]))])), Err(QueryParseError::UnknownQueryType));
    assert_eq!(
        parse_query(&obj(vec![("match_all", obj(vec![("boost", Json::I64(-1))]))])),
        Err(QueryParseError::InvalidNumber)
    );
    assert_eq!(
        parse_query(&obj(vec![("match_all", obj(vec![("boost", Json::F64 { bits: (-1.5f64).to_bits() })]))])),
        Err(QueryParseError::InvalidNumber)
    );
    assert_eq!(
        parse_query(&obj(vec![("match_all", obj(vec![("boost", Json::F64 { bits: f64::NAN.to_bits() })]))])),
        Err(QueryParseError::InvalidNumber)
    );
    assert_eq!(
        parse_query(&obj(vec![("match_all", obj(vec![("boost", Json::F64 { bits: 1e300f64.to_bits() })]))])),
        Err(QueryParseError::InvalidNumber)
    );
    assert_eq!(
        parse_query(&obj(vec![("match_all", obj(vec![("boost", Json::U64(u64::MAX))]))])),
        Err(QueryParseError::InvalidNumber)
    );
    assert_eq!(
        parse_query(&obj(vec![("bool", obj(vec![("must", text("x"))]))])),
        Err(QueryParseError::Malformed)
    );
    assert_eq!(
        parse_query(&obj(vec![("bool", obj(vec![("unknown", Json::Null)]))])),
        Err(QueryParseError::Malformed)
    );
    assert_eq!(
        parse_query(&obj(vec![("bool", obj(vec![("should", Json::Array(vec![term_json("a", "b"), obj(vec![("nope", obj(vec![]))])]))]))])),
        Err(QueryParseError::UnknownQueryType)
    );
    assert_eq!(
        parse_query(&obj(vec![("term", obj(vec![("a", Json::U64(1))]))])),
        Err(QueryParseError::Malformed)
    );
    assert_eq!(
        parse_query(&obj(vec![("dis_max", obj(vec![("boost", Json::U64(1))]))])),
        Err(QueryParseError::Malformed)
    );
}

#[test]
fn mapping_definitions() {
    let def = obj(vec![
        ("title", obj(vec![("type", text("string")), ("analyzer", text("edge_ngram"))])),
        ("flag", obj(vec![("type", text("boolean")), ("include_in_all", Json::Boolean(false)), ("index", text("no"))])),
    ]);
    let m = Mapping::from_json(&def).unwrap();
    assert_eq!(
        m,
        Mapping {
            fields: vec![
                (s("title"), FieldMapping { field_type: FieldType::Text, analyzer: Some(AnalyzerSpec::edge_ngram()), is_in_all: true }),
                (s("flag"), FieldMapping { field_type: FieldType::Boolean, analyzer: None, is_in_all: false }),
            ],
        }
    );
    assert_eq!(Mapping::from_json(&Json::Null), Err(MappingParseError::Malformed));
    assert_eq!(
        Mapping::from_json(&obj(vec![("a", obj(vec![("type", text("geo"))]))])),
        Err(MappingParseError::UnknownFieldType)
    );
    assert_eq!(
        Mapping::from_json(&obj(vec![("a", obj(vec![("type", text("text")), ("analyzer", text("fancy"))]))])),
        Err(MappingParseError::UnknownAnalyzer)
    );
    assert_eq!(Mapping::from_json(&obj(vec![("a", obj(vec![]))])), Err(MappingParseError::Malformed));
    assert_eq!(
        Mapping::from_json(&obj(vec![("a", obj(vec![("type", text("long")), ("include_in_all", text("yes"))]))])),
        Err(MappingParseError::Malformed)
    );
}

fn registry() -> Indices {
    let mapping = Mapping::from_json(&obj(vec![("title", obj(vec![("type", text("string"))]))])).unwrap();
    let mut index = Index::new("books");
    for (id, title) in [("1", "Red Fox"), ("2", "Blue Fox"), ("3", "Red Hen")] {
        let doc = Document::from_json(&obj(vec![("title", text(title))]), &mapping).unwrap();
        index.put_document(id, doc);
    }
    index.put_mapping("book", mapping);
    let mut indices = Indices::new();
    indices.put_index(index);
    indices
}

#[test]
fn count_view() {
    let indices = registry();
    let r = view_count(&indices, "books", None);
    assert_eq!((r.status, r.body.as_str()), (200, "{\"count\": 3}"));
    let body = obj(vec![("query", term_json("_all", "fox"))]);
    let r = view_count(&indices, "books", Some(&body));
    assert_eq!((r.status, r.body.as_str()), (200, "{\"count\": 2}"));
    let bad = obj(vec![("query", obj(vec![("nope", obj(vec![]))]))]);
    let r = view_count(&indices, "books", Some(&bad));
    assert_eq!((r.status, r.body.as_str()), (400, "{\"message\": \"Query error\"}"));
    let r = view_count(&indices, "books", Some(&obj(vec![])));
    assert_eq!(r.status, 400);
    let r = view_count(&indices, "films", None);
    assert_eq!((r.status, r.body.as_str()), (404, "{\"message\": \"Index not found\"}"));
}

#[test]
fn search_view_agrees_with_count() {
    let indices = registry();
    let body = obj(vec![("query", term_json("_all", "red"))]);
    let hits = view_search(&indices, "books", Some(&body)).unwrap();
    let ids: Vec<&str> = hits.iter().map(|h| h.id.as_str()).collect();
    assert_eq!(ids, vec!["1", "3"]);
    let r = view_count(&indices, "books", Some(&body));
    assert_eq!(r.body, format!("{{\"count\": {}}}", hits.len()));
    assert_eq!(view_search(&indices, "books", None).unwrap().len(), 3);
    assert_eq!(view_search(&indices, "films", None).unwrap_err().status, 404);
}

#[test]
fn decimal_numbers() {
    assert_eq!(decimal_text(0), "0");
    assert_eq!(decimal_text(7), "7");
    assert_eq!(decimal_text(10), "10");
    assert_eq!(decimal_text(1234567890), "1234567890");
    assert_eq!(decimal_text(usize::MAX), usize::MAX.to_string());
}

fn float_boost_query(x: f64) -> Result<Query, QueryParseError> {
    parse_query(&obj(vec![("match_all", obj(vec![("boost", Json::F64 { bits: x.to_bits() })]))]))
}

#[test]
fn float_boosts_in_thousandths() {
    assert_eq!(float_boost_query(1.5), Ok(Query::MatchAll { boost: 1500 }));
    assert_eq!(float_boost_query(2.0), Ok(Query::MatchAll { boost: 2000 }));
    assert_eq!(float_boost_query(0.1), Ok(Query::MatchAll { boost: 100 }));
    assert_eq!(float_boost_query(0.0), Ok(Query::MatchAll { boost: 0 }));
    assert_eq!(float_boost_query(1e-310), Ok(Query::MatchAll { boost: 0 }));
    assert_eq!(float_boost_query(12345678.9), Ok(Query::MatchAll { boost: 12345678900 }));
    assert_eq!(float_boost_query(1e15), Ok(Query::MatchAll { boost: 1_000_000_000_000_000_000 }));
}
