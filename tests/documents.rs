use rusticsearch::analysis::{AnalyzerSpec, Edge, FilterSpec, TokenizerSpec};
use rusticsearch::document::{Document, DocumentError, FieldMapping, FieldType, Mapping};
use rusticsearch::value::{Json, Value};

fn s(x: &str) -> String {
    x.to_string()
}

fn text(in_all: bool) -> FieldMapping {
    FieldMapping { field_type: FieldType::Text, analyzer: None, is_in_all: in_all }
}

fn strings(v: &[&str]) -> Vec<String> {
    v.iter().map(|x| x.to_string()).collect()
}

fn field<'a>(d: &'a Document, name: &str) -> Option<&'a Value> {
    d.get(name)
}

#[test]
fn all_field_concatenates_included_fields() {
    let mapping = Mapping {
        fields: vec![(s("title"), text(true)), (s("body"), text(true)), (s("notes"), text(false))],
    };
    let data = Json::Object(vec![
        (s("title"), Json::String(s("Hello World"))),
        (s("body"), Json::String(s("Big Cats"))),
        (s("notes"), Json::String(s("secret words"))),
    ]);
    let doc = Document::from_json(&data, &mapping).unwrap();
    assert_eq!(field(&doc, "_all"), Some(&Value::TokenVector(strings(&["hello", "world", "big", "cats"]))));
    assert_eq!(field(&doc, "notes"), Some(&Value::TokenVector(strings(&["secret", "words"]))));
    assert_eq!(doc.fields.len(), 4);
    assert_eq!(doc.fields[3].0, "_all");
}

#[test]
fn unmapped_and_non_text_fields_convert_directly() {
    let mapping = Mapping {
        fields: vec![(s("flag"), FieldMapping { field_type: FieldType::Boolean, analyzer: None, is_in_all: true })],
    };
    let data = Json::Object(vec![
        (s("flag"), Json::Boolean(true)),
        (s("n"), Json::I64(-4)),
        (s("u"), Json::U64(7)),
        (s("x"), Json::F64 { bits: 1.5f64.to_bits() }),
        (s("name"), Json::String(s("Keep Case"))),
        (s("list"), Json::Array(vec![Json::Null])),
        (s("obj"), Json::Object(vec![])),
    ]);
    let doc = Document::from_json(&data, &mapping).unwrap();
    assert_eq!(field(&doc, "flag"), Some(&Value::Boolean(true)));
    assert_eq!(field(&doc, "n"), Some(&Value::I64(-4)));
    assert_eq!(field(&doc, "u"), Some(&Value::U64(7)));
    assert_eq!(field(&doc, "x"), Some(&Value::F64 { bits: 1.5f64.to_bits() }));
    assert_eq!(field(&doc, "name"), Some(&Value::String(s("Keep Case"))));
    assert_eq!(field(&doc, "list"), Some(&Value::Null));
    assert_eq!(field(&doc, "obj"), Some(&Value::Null));
    assert_eq!(field(&doc, "_all"), Some(&Value::TokenVector(vec![])));
}

#[test]
fn user_all_field_is_shadowed() {
    let mapping = Mapping { fields: vec![(s("t"), text(true))] };
    let data = Json::Object(vec![
        (s("_all"), Json::String(s("ignored"))),
        (s("t"), Json::String(s("Kept"))),
    ]);
    let doc = Document::from_json(&data, &mapping).unwrap();
    assert_eq!(doc.fields.len(), 2);
    assert_eq!(field(&doc, "_all"), Some(&Value::TokenVector(strings(&["kept"]))));
}

#[test]
fn custom_analyzer_is_used() {
    let a = AnalyzerSpec {
        tokenizer: TokenizerSpec::Standard,
        filters: vec![FilterSpec::ASCIIFolding, FilterSpec::NGram { min_size: 2, max_size: 2, edge: Edge::Right }],
    };
    let mapping = Mapping {
        fields: vec![(s("t"), FieldMapping { field_type: FieldType::Text, analyzer: Some(a), is_in_all: false })],
    };
    let data = Json::Object(vec![(s("t"), Json::String(s("café bar")))]);
    let doc = Document::from_json(&data, &mapping).unwrap();
    assert_eq!(field(&doc, "t"), Some(&Value::TokenVector(strings(&["fe", "ar"]))));
}

#[test]
fn non_object_record_is_refused() {
    let mapping = Mapping { fields: vec![] };
    assert_eq!(Document::from_json(&Json::Null, &mapping), Err(DocumentError::NotAnObject));
    assert_eq!(Document::from_json(&Json::Array(vec![]), &mapping), Err(DocumentError::NotAnObject));
}

#[test]
fn process_value_on_text_field() {
    let r = text(false).process_value(&Json::String(s("A b")));
    assert_eq!(r, Some(Value::TokenVector(strings(&["a", "b"]))));
}

#[test]
fn value_json_round_trip() {
    let values = vec![
        Value::String(s("x")),
        Value::Boolean(false),
        Value::I64(-1),
        Value::U64(u64::MAX),
        Value::F64 { bits: 2.0f64.to_bits() },
        Value::Null,
    ];
    for v in values {
        assert_eq!(Value::from_json(&v.as_json()), v);
    }
    assert_eq!(Value::TokenVector(strings(&["a"])).as_json(), Json::Null);
}

#[test]
fn all_field_follows_declaration_order() {
    let mapping = Mapping {
        fields: vec![(s("title"), text(true)), (s("body"), text(true)), (s("notes"), text(false))],
    };
    let data = Json::Object(vec![
        (s("notes"), Json::String(s("secret"))),
        (s("body"), Json::String(s("Big Cats"))),
        (s("title"), Json::String(s("Hello"))),
    ]);
    let doc = Document::from_json(&data, &mapping).unwrap();
    assert_eq!(field(&doc, "_all"), Some(&Value::TokenVector(strings(&["hello", "big", "cats"]))));
    assert_eq!(doc.fields[0].0, "notes");
}
