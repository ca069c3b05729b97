//! Field mappings and documents: a mapping says, per field, how a raw JSON
//! value is stored, and a document is a record converted under a mapping,
//! with the synthesized `_all` field.

use crate::analysis::{analyze, lemma_push_view, string_views, AnalyzerSpec, FilterSpec, TokenizerSpec};
use crate::parser::{get_member, member};
use crate::value::{json_value, Json, Value, ValueView};
use vstd::prelude::*;
use vstd::string::*;

verus! {

/// The semantic type of a mapped field.
#[derive(Clone, Copy, Debug, PartialEq, Eq, Structural)]
pub enum FieldType {
    Text,
    Boolean,
    Integer,
    Float,
    Passthrough,
}

/// How one field of a document type is converted.
#[derive(Clone, Debug, PartialEq, Eq)]
pub struct FieldMapping {
    pub field_type: FieldType,
    /// The analyzer of a text field; `None` selects the standard analyzer.
    pub analyzer: Option<AnalyzerSpec>,
    /// Whether the field's terms are also added to `_all`.
    pub is_in_all: bool,
}

/// The field declarations of one document type, in declaration order.
#[derive(Clone, Debug, PartialEq, Eq)]
pub struct Mapping {
    pub fields: Vec<(String, FieldMapping)>,
}

/// Why a record could not become a document.
#[derive(Clone, Copy, Debug, PartialEq, Eq, Structural)]
pub enum DocumentError {
    /// The record is not a JSON object.
    NotAnObject,
}

/// A converted record: field names with their values, `_all` last.
#[derive(Clone, Debug, PartialEq)]
pub struct Document {
    pub fields: Vec<(String, Value)>,
}

pub open spec fn all_field() -> Seq<char> {
    seq!['_', 'a', 'l', 'l']
}

/// The terms that a field mapping's analyzer makes of a text.
pub open spec fn analyzed_terms(m: FieldMapping, s: Seq<char>) -> Seq<Seq<char>> {
    let (t, fs) = match m.analyzer {
        Some(a) => (a.tokenizer, a.filters@),
        None => (TokenizerSpec::Standard, seq![FilterSpec::Lowercase]),
    };
    analyze(t, fs, s).map_values(|x: (Seq<char>, nat)| x.0)
}

/// The stored form of a raw value under a field mapping: a string in a text
/// field becomes its analyzed terms; anything else is converted directly.
pub open spec fn mapped_value(m: FieldMapping, j: Json) -> ValueView {
    match j {
        Json::String(s) => if m.field_type == FieldType::Text {
            ValueView::TokenVector(analyzed_terms(m, s@))
        } else {
            ValueView::String(s@)
        },
        _ => json_value(j),
    }
}

/// The first declaration of a field name, if any.
pub open spec fn lookup(fields: Seq<(String, FieldMapping)>, name: Seq<char>) -> Option<
    FieldMapping,
>
    decreases fields.len(),
{
    if fields.len() == 0 {
        None
    } else if fields[0].0@ == name {
        Some(fields[0].1)
    } else {
        lookup(fields.drop_first(), name)
    }
}

pub open spec fn doc_view(fields: Seq<(String, Value)>) -> Seq<(Seq<char>, ValueView)> {
    fields.map_values(|f: (String, Value)| (f.0@, f.1@))
}

/// The stored fields of a record's members under a mapping, in member
/// order: declared fields are converted by their mapping, others directly;
/// a member named `_all` is dropped, as that name is reserved.
pub open spec fn converted_fields(members: Seq<(String, Json)>, mapping: Seq<(String, FieldMapping)>) -> Seq<
    (Seq<char>, ValueView),
>
    decreases members.len(),
{
    if members.len() == 0 {
        seq![]
    } else {
        let prev = converted_fields(members.drop_last(), mapping);
        let (name, j) = members.last();
        if name@ == all_field() {
            prev
        } else {
            match lookup(mapping, name@) {
                Some(m) => prev.push((name@, mapped_value(m, j))),
                None => prev.push((name@, json_value(j))),
            }
        }
    }
}

/// The `_all` terms of a record under a mapping: for every declared text
/// field marked for inclusion, in declaration order, the analyzed terms of
/// the record's member of that name, if it has one.
pub open spec fn all_terms(members: Seq<(String, Json)>, mapping: Seq<(String, FieldMapping)>) -> Seq<
    Seq<char>,
>
    decreases mapping.len(),
{
    if mapping.len() == 0 {
        seq![]
    } else {
        let prev = all_terms(members, mapping.drop_last());
        let (name, m) = mapping.last();
        if m.is_in_all && name@ != all_field() {
            match member(members, name@) {
                Some(j) => match mapped_value(m, j) {
                    ValueView::TokenVector(ts) => prev + ts,
                    _ => prev,
                },
                None => prev,
            }
        } else {
            prev
        }
    }
}

/// The text of a JSON string; empty for anything else.
pub open spec fn json_text(j: Json) -> Seq<char> {
    match j {
        Json::String(s) => s@,
        _ => seq![],
    }
}

/// Whether a member is a string under a declared text field with the given
/// inclusion flag.
pub open spec fn text_field(
    field: (String, FieldMapping),
    members: Seq<(String, Json)>,
    in_all: bool,
) -> bool {
    &&& field.0@ != all_field()
    &&& field.1.field_type == FieldType::Text
    &&& field.1.is_in_all == in_all
    &&& member(members, field.0@) is Some
    &&& member(members, field.0@)->Some_0 is String
}

/// With two text fields marked for `_all` and a third that is not, `_all`
/// holds the two included fields' terms, in declaration order, and none
/// of the third's.
pub proof fn lemma_all_aggregation(
    members: Seq<(String, Json)>,
    mapping: Seq<(String, FieldMapping)>,
)
    requires
        mapping.len() == 3,
        text_field(mapping[0], members, true),
        text_field(mapping[1], members, true),
        text_field(mapping[2], members, false),
    ensures
        all_terms(members, mapping) == analyzed_terms(
            mapping[0].1,
            json_text(member(members, mapping[0].0@)->Some_0),
        ) + analyzed_terms(mapping[1].1, json_text(member(members, mapping[1].0@)->Some_0)),
{
    let m2 = mapping.drop_last();
    let m1 = m2.drop_last();
    let m0 = m1.drop_last();
    assert(m0.len() == 0);
    assert(m1.last() == mapping[0]);
    assert(m2.last() == mapping[1]);
    assert(all_terms(members, m0) =~= seq![]);
    let a = analyzed_terms(mapping[0].1, json_text(member(members, mapping[0].0@)->Some_0));
    let b = analyzed_terms(mapping[1].1, json_text(member(members, mapping[1].0@)->Some_0));
    assert(mapped_value(mapping[0].1, member(members, mapping[0].0@)->Some_0)
        == ValueView::TokenVector(a));
    assert(mapped_value(mapping[1].1, member(members, mapping[1].0@)->Some_0)
        == ValueView::TokenVector(b));
    assert(all_terms(members, m1) =~= a);
    assert(all_terms(members, m2) =~= a + b);
    assert(mapping.last() == mapping[2]);
    assert(all_terms(members, mapping) == all_terms(members, m2));
}

/// The field names of a document view.
pub open spec fn doc_names(d: Seq<(Seq<char>, ValueView)>) -> Seq<Seq<char>> {
    d.map_values(|f: (Seq<char>, ValueView)| f.0)
}

/// The member names of a JSON object.
pub open spec fn member_names(ms: Seq<(String, Json)>) -> Seq<Seq<char>> {
    ms.map_values(|m: (String, Json)| m.0@)
}

pub open spec fn distinct(ns: Seq<Seq<char>>) -> bool {
    forall|i: int, j: int| 0 <= i < j < ns.len() ==> ns[i] != ns[j]
}

/// Every converted field is named after a member and none is `_all`; with
/// distinct member names, the field names are distinct too.
pub proof fn lemma_converted_names(members: Seq<(String, Json)>, mapping: Seq<(String, FieldMapping)>)
    ensures
        forall|k: int|
            0 <= k < converted_fields(members, mapping).len() ==> (#[trigger] converted_fields(
                members,
                mapping,
            )[k]).0 != all_field() && member_names(members).contains(
                converted_fields(members, mapping)[k].0,
            ),
        distinct(member_names(members)) ==> distinct(doc_names(converted_fields(members, mapping))),
    decreases members.len(),
{
    if members.len() > 0 {
        let prev = members.drop_last();
        lemma_converted_names(prev, mapping);
        let cf = converted_fields(members, mapping);
        let pf = converted_fields(prev, mapping);
        let name = members.last().0@;
        assert forall|k: int| 0 <= k < pf.len() implies member_names(members).contains(
            #[trigger] pf[k].0,
        ) by {
            let m = choose|m: int| 0 <= m < member_names(prev).len() && member_names(prev)[m] == pf[k].0;
            assert(member_names(members)[m] == member_names(prev)[m]);
        }
        assert(member_names(members)[members.len() - 1] == name);
        if distinct(member_names(members)) {
            assert(distinct(member_names(prev))) by {
                assert forall|i: int, j: int| 0 <= i < j < member_names(prev).len() implies member_names(prev)[i] != member_names(prev)[j] by {
                    assert(member_names(members)[i] == member_names(prev)[i]);
                    assert(member_names(members)[j] == member_names(prev)[j]);
                }
            }
            if name != all_field() {
                assert forall|k: int| 0 <= k < pf.len() implies #[trigger] pf[k].0 != name by {
                    let m = choose|m: int| 0 <= m < member_names(prev).len() && member_names(prev)[m] == pf[k].0;
                    assert(member_names(members)[m] == member_names(prev)[m]);
                }
                assert forall|i: int, j: int| 0 <= i < j < doc_names(cf).len() implies doc_names(cf)[i] != doc_names(cf)[j] by {
                    assert(doc_names(cf)[i] == cf[i].0);
                    assert(doc_names(cf)[j] == cf[j].0);
                    if j < pf.len() {
                        assert(doc_names(pf)[i] == pf[i].0);
                        assert(doc_names(pf)[j] == pf[j].0);
                    }
                }
            } else {
                assert(doc_names(cf) == doc_names(pf));
            }
        }
    }
}

/// Whether two texts are equal.
pub fn same_text(a: &str, b: &str) -> (r: bool)
    ensures
        r == (a@ == b@),
{
    String::from_str(a) == String::from_str(b)
}

impl FieldMapping {
    /// Converts a raw value for this field (see `mapped_value`). Every field
    /// is stored, so the result is always `Some`.
    pub fn process_value(&self, value: &Json) -> (r: Option<Value>)
        ensures
            r is Some,
            r.unwrap()@ == mapped_value(*self, *value),
    {
        match value {
            Json::String(s) => {
                if self.field_type == FieldType::Text {
                    let terms = match &self.analyzer {
                        Some(a) => a.terms(s.as_str()),
                        None => AnalyzerSpec::standard().terms(s.as_str()),
                    };
                    Some(Value::TokenVector(terms))
                } else {
                    Some(Value::String(s.clone()))
                }
            },
            _ => Some(Value::from_json(value)),
        }
    }
}

impl Mapping {
    /// The index of the first declaration of `name`.
    pub fn find(&self, name: &str) -> (r: Option<usize>)
        ensures
            match r {
                Some(i) => i < self.fields@.len() && self.fields@[i as int].0@ == name@
                    && lookup(self.fields@, name@) == Some(self.fields@[i as int].1),
                None => lookup(self.fields@, name@) is None,
            },
    {
        let mut i: usize = 0;
        assert(self.fields@.subrange(0, self.fields@.len() as int) =~= self.fields@);
        while i < self.fields.len()
            invariant
                i <= self.fields.len(),
                lookup(self.fields@, name@) == lookup(self.fields@.subrange(i as int, self.fields@.len() as int), name@),
            decreases self.fields.len() - i,
        {
            let ghost rest = self.fields@.subrange(i as int, self.fields@.len() as int);
            assert(rest.drop_first() =~= self.fields@.subrange(i + 1, self.fields@.len() as int));
            if same_text(self.fields[i].0.as_str(), name) {
                return Some(i);
            }
            i = i + 1;
        }
        None
    }
}

/// The `_all` terms of a record under a mapping (see `all_terms`).
fn all_field_terms(members: &Vec<(String, Json)>, mapping: &Mapping) -> (r: Vec<String>)
    ensures
        string_views(r@) == all_terms(members@, mapping.fields@),
{
    let mut all: Vec<String> = Vec::new();
    let mut k: usize = 0;
    while k < mapping.fields.len()
        invariant
            k <= mapping.fields.len(),
            string_views(all@) == all_terms(members@, mapping.fields@.subrange(0, k as int)),
        decreases mapping.fields.len() - k,
    {
        assert(mapping.fields@.subrange(0, k + 1).drop_last() =~= mapping.fields@.subrange(0, k as int));
        let name = &mapping.fields[k].0;
        let fm = &mapping.fields[k].1;
        proof {
            reveal_strlit("_all");
            assert("_all"@ =~= all_field());
        }
        if fm.is_in_all && !same_text(name.as_str(), "_all") {
            match get_member(members, name.as_str()) {
                Some(raw) => {
                    let v = fm.process_value(raw).unwrap();
                    match &v {
                        Value::TokenVector(ts) => {
                            let mut j: usize = 0;
                            let ghost base = string_views(all@);
                            while j < ts.len()
                                invariant
                                    j <= ts.len(),
                                    string_views(all@) =~= base + string_views(ts@).subrange(0, j as int),
                                decreases ts.len() - j,
                            {
                                let t = ts[j].clone();
                                proof { lemma_push_view(all@, t); }
                                all.push(t);
                                j = j + 1;
                            }
                            assert(string_views(ts@).subrange(0, ts.len() as int) =~= string_views(ts@));
                        },
                        _ => {},
                    }
                },
                None => {},
            }
        }
        k = k + 1;
    }
    assert(mapping.fields@.subrange(0, mapping.fields@.len() as int) =~= mapping.fields@);
    all
}

impl Document {
    /// Converts a record under `mapping`. The stored fields follow
    /// `converted_fields`, and `_all` comes last with `all_terms`. A record
    /// that is not an object is refused.
    pub fn from_json(data: &Json, mapping: &Mapping) -> (r: Result<Document, DocumentError>)
        ensures
            match data {
                Json::Object(members) => r is Ok && doc_view(r.unwrap().fields@) == converted_fields(
                    members@,
                    mapping.fields@,
                ).push((all_field(), ValueView::TokenVector(all_terms(members@, mapping.fields@))))
                    && (distinct(member_names(members@)) ==> distinct(
                    doc_names(doc_view(r.unwrap().fields@)),
                )),
                _ => r == Err::<Document, DocumentError>(DocumentError::NotAnObject),
            },
    {
        let members = match data {
            Json::Object(members) => members,
            _ => {
                return Err(DocumentError::NotAnObject);
            },
        };
        let mut fields: Vec<(String, Value)> = Vec::new();
        let mut i: usize = 0;
        while i < members.len()
            invariant
                i <= members.len(),
                doc_view(fields@) == converted_fields(members@.subrange(0, i as int), mapping.fields@),
            decreases members.len() - i,
        {
            let ghost pre = members@.subrange(0, i as int);
            assert(members@.subrange(0, i + 1).drop_last() =~= pre);
            let name = &members[i].0;
            let raw = &members[i].1;
            if same_text(name.as_str(), "_all") {
                proof { reveal_strlit("_all"); assert("_all"@ =~= all_field()); }
            } else {
                proof { reveal_strlit("_all"); assert("_all"@ =~= all_field()); }
                match mapping.find(name.as_str()) {
                    Some(k) => {
                        let fm = &mapping.fields[k].1;
                        let v = fm.process_value(raw).unwrap();
                        let ghost before = fields@;
                        fields.push((name.clone(), v));
                        assert(doc_view(fields@) =~= doc_view(before).push((name@, mapped_value(*fm, *raw))));
                    },
                    None => {
                        let v = Value::from_json(raw);
                        let ghost before = fields@;
                        fields.push((name.clone(), v));
                        assert(doc_view(fields@) =~= doc_view(before).push((name@, json_value(*raw))));
                    },
                }
            }
            i = i + 1;
        }
        assert(members@.subrange(0, members@.len() as int) =~= members@);
        let all = all_field_terms(members, mapping);
        let ghost before = fields@;
        let name = String::from_str("_all");
        proof {
            reveal_strlit("_all");
            assert(name@ =~= all_field());
        }
        fields.push((name, Value::TokenVector(all)));
        proof {
            assert(doc_view(fields@) =~= doc_view(before).push((all_field(), ValueView::TokenVector(all_terms(members@, mapping.fields@)))));
            lemma_converted_names(members@, mapping.fields@);
            let cf = converted_fields(members@, mapping.fields@);
            let d = doc_view(fields@);
            if distinct(member_names(members@)) {
                assert forall|a: int, b: int| 0 <= a < b < doc_names(d).len() implies doc_names(d)[a] != doc_names(d)[b] by {
                    assert(doc_names(d)[a] == d[a].0);
                    assert(doc_names(d)[b] == d[b].0);
                    if b < cf.len() {
                        assert(doc_names(cf)[a] == cf[a].0);
                        assert(doc_names(cf)[b] == cf[b].0);
                    } else {
                        assert(cf[a].0 != all_field());
                    }
                }
            }
        }
        Ok(Document { fields })
    }
}


/// Why a mapping definition was refused.
#[derive(Clone, Copy, Debug, PartialEq, Eq, Structural)]
pub enum MappingParseError {
    /// The definition is not shaped like a mapping.
    Malformed,
    /// A field names a type this library does not know.
    UnknownFieldType,
    /// A field names an analyzer this library does not know.
    UnknownAnalyzer,
}

/// The field type a type name stands for.
pub open spec fn field_type_named(n: Seq<char>) -> Option<FieldType> {
    if n == "string"@ || n == "text"@ {
        Some(FieldType::Text)
    } else if n == "boolean"@ {
        Some(FieldType::Boolean)
    } else if n == "integer"@ || n == "long"@ {
        Some(FieldType::Integer)
    } else if n == "float"@ || n == "double"@ {
        Some(FieldType::Float)
    } else if n == "null"@ {
        Some(FieldType::Passthrough)
    } else {
        None
    }
}

/// Whether `a` is the preset analyzer an analyzer name stands for:
/// `standard`, or `edge_ngram`.
pub open spec fn preset_named(n: Seq<char>, a: AnalyzerSpec) -> bool {
    if n == "standard"@ {
        a.tokenizer == TokenizerSpec::Standard && a.filters@ == seq![FilterSpec::Lowercase]
    } else if n == "edge_ngram"@ {
        a.tokenizer == TokenizerSpec::Standard && a.filters@ == seq![
            FilterSpec::Lowercase,
            FilterSpec::NGram { min_size: 2, max_size: 15, edge: crate::analysis::Edge::Left },
        ]
    } else {
        false
    }
}

pub open spec fn is_preset_name(n: Seq<char>) -> bool {
    n == "standard"@ || n == "edge_ngram"@
}

/// The first error of one field definition: an object with a `type`
/// string, an optional `analyzer` string and an optional `include_in_all`
/// boolean; other members are ignored.
pub open spec fn field_def_error(def: Json) -> Option<MappingParseError> {
    match def {
        Json::Object(ps) => match member(ps@, "type"@) {
            Some(Json::String(t)) => if field_type_named(t@) is None {
                Some(MappingParseError::UnknownFieldType)
            } else {
                match member(ps@, "analyzer"@) {
                    Some(Json::String(a)) if !is_preset_name(a@) => Some(
                        MappingParseError::UnknownAnalyzer,
                    ),
                    Some(Json::String(_)) | None => match member(ps@, "include_in_all"@) {
                        Some(Json::Boolean(_)) | None => None,
                        Some(_) => Some(MappingParseError::Malformed),
                    },
                    Some(_) => Some(MappingParseError::Malformed),
                }
            },
            _ => Some(MappingParseError::Malformed),
        },
        _ => Some(MappingParseError::Malformed),
    }
}

/// Whether `m` is the field mapping a valid definition denotes; a field is
/// included in `_all` unless it says otherwise.
pub open spec fn field_def_denotes(def: Json, m: FieldMapping) -> bool {
    match def {
        Json::Object(ps) => {
            &&& Some(m.field_type) == field_type_named(member(ps@, "type"@)->Some_0->String_0@)
            &&& match member(ps@, "analyzer"@) {
                Some(Json::String(a)) => m.analyzer is Some && preset_named(a@, m.analyzer->Some_0),
                _ => m.analyzer is None,
            }
            &&& m.is_in_all == match member(ps@, "include_in_all"@) {
                Some(Json::Boolean(b)) => b,
                _ => true,
            }
        },
        _ => false,
    }
}

/// The first error among the first `n` field definitions.
pub open spec fn defs_error(ms: Seq<(String, Json)>, n: int) -> Option<MappingParseError>
    decreases n,
{
    if n <= 0 || n > ms.len() {
        None
    } else {
        match defs_error(ms, n - 1) {
            Some(e) => Some(e),
            None => field_def_error(ms[n - 1].1),
        }
    }
}

proof fn lemma_defs_error_stays(ms: Seq<(String, Json)>, m: int, n: int)
    requires
        0 < m <= n <= ms.len(),
        defs_error(ms, m) is Some,
    ensures
        defs_error(ms, n) == defs_error(ms, m),
    decreases n - m,
{
    if n > m {
        lemma_defs_error_stays(ms, m, n - 1);
    }
}

fn field_type_exec(n: &str) -> (r: Option<FieldType>)
    ensures
        r == field_type_named(n@),
{
    if same_text(n, "string") || same_text(n, "text") {
        Some(FieldType::Text)
    } else if same_text(n, "boolean") {
        Some(FieldType::Boolean)
    } else if same_text(n, "integer") || same_text(n, "long") {
        Some(FieldType::Integer)
    } else if same_text(n, "float") || same_text(n, "double") {
        Some(FieldType::Float)
    } else if same_text(n, "null") {
        Some(FieldType::Passthrough)
    } else {
        None
    }
}

fn preset_exec(n: &str) -> (r: Option<AnalyzerSpec>)
    ensures
        match r {
            Some(a) => is_preset_name(n@) && preset_named(n@, a),
            None => !is_preset_name(n@),
        },
{
    if same_text(n, "standard") {
        Some(AnalyzerSpec::standard())
    } else if same_text(n, "edge_ngram") {
        Some(AnalyzerSpec::edge_ngram())
    } else {
        None
    }
}

impl FieldMapping {
    /// Reads one field definition (see `field_def_error`).
    pub fn from_json(def: &Json) -> (r: Result<FieldMapping, MappingParseError>)
        ensures
            match r {
                Ok(m) => field_def_error(*def) is None && field_def_denotes(*def, m),
                Err(e) => field_def_error(*def) == Some(e),
            },
    {
        let ps = match def {
            Json::Object(ps) => ps,
            _ => {
                return Err(MappingParseError::Malformed);
            },
        };
        let field_type = match get_member(ps, "type") {
            Some(Json::String(t)) => match field_type_exec(t.as_str()) {
                Some(ft) => ft,
                None => {
                    return Err(MappingParseError::UnknownFieldType);
                },
            },
            _ => {
                return Err(MappingParseError::Malformed);
            },
        };
        let analyzer = match get_member(ps, "analyzer") {
            Some(Json::String(a)) => match preset_exec(a.as_str()) {
                Some(spec) => Some(spec),
                None => {
                    return Err(MappingParseError::UnknownAnalyzer);
                },
            },
            None => None,
            Some(_) => {
                return Err(MappingParseError::Malformed);
            },
        };
        let is_in_all = match get_member(ps, "include_in_all") {
            Some(Json::Boolean(b)) => *b,
            None => true,
            Some(_) => {
                return Err(MappingParseError::Malformed);
            },
        };
        Ok(FieldMapping { field_type, analyzer, is_in_all })
    }
}

impl Mapping {
    /// Whether a mapping definition is valid.
    pub open spec fn from_json_ok(data: Json) -> bool {
        match data {
            Json::Object(ms) => defs_error(ms@, ms@.len() as int) is None,
            _ => false,
        }
    }

    /// Whether `m` is the mapping a valid definition denotes.
    pub open spec fn denotes(data: Json, m: Mapping) -> bool {
        match data {
            Json::Object(ms) => m.fields@.len() == ms@.len() && forall|i: int|
                0 <= i < ms@.len() ==> (#[trigger] m.fields@[i]).0@ == ms@[i].0@
                    && field_def_denotes(ms@[i].1, m.fields@[i].1),
            _ => false,
        }
    }

    /// Reads a mapping definition: an object from field names to field
    /// definitions, kept in the order given.
    pub fn from_json(data: &Json) -> (r: Result<Mapping, MappingParseError>)
        ensures
            match data {
                Json::Object(ms) => match r {
                    Ok(m) => defs_error(ms@, ms@.len() as int) is None && m.fields@.len()
                        == ms@.len() && forall|i: int|
                        0 <= i < ms@.len() ==> (#[trigger] m.fields@[i]).0@ == ms@[i].0@
                            && field_def_denotes(ms@[i].1, m.fields@[i].1),
                    Err(e) => defs_error(ms@, ms@.len() as int) == Some(e),
                },
                _ => r == Err::<Mapping, MappingParseError>(MappingParseError::Malformed),
            },
    {
        let ms = match data {
            Json::Object(ms) => ms,
            _ => {
                return Err(MappingParseError::Malformed);
            },
        };
        let mut fields: Vec<(String, FieldMapping)> = Vec::new();
        let mut i: usize = 0;
        while i < ms.len()
            invariant
                i <= ms.len(),
                *data == Json::Object(*ms),
                fields@.len() == i,
                defs_error(ms@, i as int) is None,
                forall|k: int|
                    0 <= k < i ==> (#[trigger] fields@[k]).0@ == ms@[k].0@ && field_def_denotes(
                        ms@[k].1,
                        fields@[k].1,
                    ),
            decreases ms.len() - i,
        {
            match FieldMapping::from_json(&ms[i].1) {
                Ok(m) => {
                    fields.push((ms[i].0.clone(), m));
                },
                Err(e) => {
                    proof {
                        assert(defs_error(ms@, i + 1) == Some(e));
                        lemma_defs_error_stays(ms@, i + 1, ms@.len() as int);
                    }
                    return Err(e);
                },
            }
            i = i + 1;
        }
        Ok(Mapping { fields })
    }
}

} // verus!
