//! Text analysis: tokenizers turn raw text into positioned tokens, filters
//! turn one token sequence into another, and an analyzer chains one tokenizer
//! with any number of filters.

use unicode_segmentation::UnicodeSegmentation;
use crate::value::Json;
use vstd::prelude::*;
use vstd::string::*;

verus! {

/// The words that UAX#29 word segmentation finds in a text.
pub uninterp spec fn words_of(s: Seq<char>) -> Seq<Seq<char>>;

/// The lowercase mapping of a text.
pub uninterp spec fn lowercase_of(s: Seq<char>) -> Seq<char>;

/// The plain-ASCII transliteration of a text.
pub uninterp spec fn ascii_fold_of(s: Seq<char>) -> Seq<char>;

pub open spec fn all_ascii(s: Seq<char>) -> bool {
    forall|i: int| 0 <= i < s.len() ==> (s[i] as u32) < 128
}

pub open spec fn string_views(v: Seq<String>) -> Seq<Seq<char>> {
    v.map_values(|x: String| x@)
}

/// Relies on `UnicodeSegmentation::unicode_words`: the word-like runs of the
/// text, in order; an empty text has none.
#[verifier::external_body]
fn unicode_words(s: &str) -> (r: Vec<String>)
    ensures
        string_views(r@) == words_of(s@),
        s@.len() == 0 ==> r@.len() == 0,
{
    s.unicode_words().map(|w| w.to_string()).collect()
}

/// Relies on `str::to_lowercase`: the lowercase form of each character.
#[verifier::external_body]
fn to_lowercase(s: &str) -> (r: String)
    ensures
        r@ == lowercase_of(s@),
{
    s.to_lowercase()
}

/// Relies on `unidecode::unidecode`: each character is replaced by its
/// ASCII transliteration, and ASCII characters map to themselves.
#[verifier::external_body]
fn fold_to_ascii(s: &str) -> (r: String)
    ensures
        r@ == ascii_fold_of(s@),
        all_ascii(s@) ==> r@ == s@,
{
    unidecode::unidecode(s)
}

/// The folding of one character (given as a one-character text): its
/// transliteration, or the character itself where the transliteration is
/// empty or the unknown mark `[?]`.
pub open spec fn fold_char(c: Seq<char>) -> Seq<char> {
    let f = ascii_fold_of(c);
    if f.len() == 0 || f == "[?]"@ {
        c
    } else {
        f
    }
}

/// ASCII folding of a text, character by character (see `fold_char`).
pub open spec fn fold_text(s: Seq<char>) -> Seq<char>
    decreases s.len(),
{
    if s.len() == 0 {
        seq![]
    } else {
        fold_text(s.drop_last()) + fold_char(seq![s.last()])
    }
}

/// Folds a text to ASCII (see `fold_text`); a pure-ASCII text is kept.
pub fn fold_term(s: &str) -> (r: String)
    ensures
        r@ == fold_text(s@),
        all_ascii(s@) ==> r@ == s@,
{
    let len = s.unicode_len();
    let mut out = String::new();
    let mut i: usize = 0;
    while i < len
        invariant
            len == s@.len(),
            i <= len,
            out@ == fold_text(s@.subrange(0, i as int)),
            all_ascii(s@) ==> out@ == s@.subrange(0, i as int),
        decreases len - i,
    {
        let c = s.substring_char(i, i + 1);
        let folded = fold_to_ascii(c);
        let ghost pre = s@.subrange(0, i as int);
        assert(s@.subrange(0, i + 1).drop_last() =~= pre);
        assert(c@ =~= seq![s@.subrange(0, i + 1).last()]);
        proof {
            reveal_strlit("[?]");
        }
        if folded.unicode_len() == 0 || crate::document::same_text(folded.as_str(), "[?]") {
            out.append(c);
        } else {
            out.append(folded.as_str());
        }
        proof {
            if all_ascii(s@) {
                assert(all_ascii(c@));
                assert(s@.subrange(0, i + 1) =~= pre + c@);
            }
        }
        i = i + 1;
    }
    assert(s@.subrange(0, len as int) =~= s@);
    out
}

/// One term produced by analysis, with its 1-based position.
#[derive(Clone, Debug, PartialEq, Eq)]
pub struct Token {
    pub term: String,
    pub position: usize,
}

impl View for Token {
    type V = (Seq<char>, nat);

    open spec fn view(&self) -> (Seq<char>, nat) {
        (self.term@, self.position as nat)
    }
}

pub open spec fn tokens_view(v: Seq<Token>) -> Seq<(Seq<char>, nat)> {
    v.map_values(|t: Token| t@)
}

/// Which end of the text n-gram windows are anchored to.
#[derive(Clone, Copy, Debug, PartialEq, Eq, Structural)]
pub enum Edge {
    Left,
    Right,
    Neither,
}

/// The windows of exactly `n` characters of `s`, left to right.
pub open spec fn windows(s: Seq<char>, n: nat, edge: Edge) -> Seq<Seq<char>> {
    if n == 0 || n > s.len() {
        seq![]
    } else {
        match edge {
            Edge::Left => seq![s.subrange(0, n as int)],
            Edge::Right => seq![s.subrange(s.len() - n, s.len() as int)],
            Edge::Neither => Seq::new((s.len() - n + 1) as nat, |i: int| s.subrange(i, i + n)),
        }
    }
}

/// The windows of every size in `min..end`, smaller sizes first.
pub open spec fn grams_below(s: Seq<char>, min: nat, end: nat, edge: Edge) -> Seq<Seq<char>>
    decreases end,
{
    if end <= min {
        seq![]
    } else {
        grams_below(s, min, (end - 1) as nat, edge) + windows(s, (end - 1) as nat, edge)
    }
}

/// The n-grams of `s` with sizes `min..=max`: all windows of the smallest
/// size left to right, then those of the next size, and so on.
pub open spec fn ngrams(s: Seq<char>, min: nat, max: nat, edge: Edge) -> Seq<Seq<char>> {
    grams_below(s, min, max + 1, edge)
}

proof fn lemma_grams_beyond(s: Seq<char>, min: nat, end: nat, edge: Edge)
    requires
        end > s.len(),
    ensures
        grams_below(s, min, end, edge) == grams_below(s, min, s.len() + 1, edge),
    decreases end,
{
    if end > s.len() + 1 {
        lemma_grams_beyond(s, min, (end - 1) as nat, edge);
        assert(windows(s, (end - 1) as nat, edge) =~= seq![]);
        assert(grams_below(s, min, end, edge) =~= grams_below(s, min, (end - 1) as nat, edge));
    }
}

pub proof fn lemma_push_view(v: Seq<String>, x: String)
    ensures
        string_views(v.push(x)) == string_views(v).push(x@),
{
    assert(string_views(v.push(x)) =~= string_views(v).push(x@));
}

/// Appends to `out` the windows of exactly `n` characters of `s`.
fn push_windows(s: &str, len: usize, n: usize, edge: Edge, out: &mut Vec<String>)
    requires
        len == s@.len(),
        1 <= n <= len,
    ensures
        string_views(final(out)@) == string_views(old(out)@) + windows(s@, n as nat, edge),
{
    match edge {
        Edge::Left => {
            let w = String::from_str(s.substring_char(0, n));
            proof { lemma_push_view(out@, w); }
            out.push(w);
            assert(string_views(out@) =~= string_views(old(out)@) + windows(s@, n as nat, edge));
        },
        Edge::Right => {
            let w = String::from_str(s.substring_char(len - n, len));
            proof { lemma_push_view(out@, w); }
            out.push(w);
            assert(string_views(out@) =~= string_views(old(out)@) + windows(s@, n as nat, edge));
        },
        Edge::Neither => {
            let ghost all = windows(s@, n as nat, edge);
            let mut i: usize = 0;
            while i <= len - n
                invariant
                    len == s@.len(),
                    1 <= n <= len,
                    i <= len - n + 1,
                    all == windows(s@, n as nat, edge),
                    edge == Edge::Neither,
                    string_views(out@) == string_views(old(out)@) + all.subrange(0, i as int),
                decreases len - n + 1 - i,
            {
                let w = String::from_str(s.substring_char(i, i + n));
                proof { lemma_push_view(out@, w); }
                out.push(w);
                assert(all.subrange(0, i + 1) =~= all.subrange(0, i as int).push(w@));
                i = i + 1;
            }
            assert(all.subrange(0, all.len() as int) =~= all);
        },
    }
}

/// The n-grams of `s` with sizes `min..=max` (see `ngrams`).
pub fn ngrams_of(s: &str, min_size: usize, max_size: usize, edge: Edge) -> (r: Vec<String>)
    ensures
        string_views(r@) == ngrams(s@, min_size as nat, max_size as nat, edge),
{
    let len = s.unicode_len();
    let mut out: Vec<String> = Vec::new();
    if min_size > max_size {
        return out;
    }
    let mut n: usize = min_size;
    assert(string_views(out@) =~= grams_below(s@, min_size as nat, n as nat, edge));
    loop
        invariant_except_break
            string_views(out@) == grams_below(s@, min_size as nat, n as nat, edge),
        invariant
            len == s@.len(),
            min_size <= n <= max_size,
        ensures
            string_views(out@) == ngrams(s@, min_size as nat, max_size as nat, edge),
        decreases max_size - n,
    {
        if n > len {
            proof {
                lemma_grams_beyond(s@, min_size as nat, n as nat, edge);
                lemma_grams_beyond(s@, min_size as nat, (max_size + 1) as nat, edge);
            }
            break;
        }
        if n > 0 {
            push_windows(s, len, n, edge, &mut out);
        }
        assert(string_views(out@) =~= grams_below(s@, min_size as nat, (n + 1) as nat, edge));
        if n == max_size {
            break;
        }
        n = n + 1;
    }
    out
}


/// A tokenizer, defined before it is bound to any text.
#[derive(Clone, Copy, Debug, PartialEq, Eq, Structural)]
pub enum TokenizerSpec {
    Standard,
    Lowercase,
    NGram { min_size: usize, max_size: usize, edge: Edge },
}

/// A token filter, defined before it is bound to any token sequence.
#[derive(Clone, Copy, Debug, PartialEq, Eq, Structural)]
pub enum FilterSpec {
    Lowercase,
    NGram { min_size: usize, max_size: usize, edge: Edge },
    ASCIIFolding,
}

/// Whether `j` is an object whose members are the given keys, in order,
/// with the given texts or numbers.
pub open spec fn json_shape(j: Json, keys: Seq<Seq<char>>, texts: Seq<Option<Seq<char>>>, nums: Seq<u64>) -> bool {
    match j {
        Json::Object(ms) => {
            &&& ms@.len() == keys.len()
            &&& texts.len() == keys.len()
            &&& nums.len() == keys.len()
            &&& forall|i: int|
                0 <= i < keys.len() ==> (#[trigger] ms@[i]).0@ == keys[i] && match texts[i] {
                    Some(t) => ms@[i].1 is String && ms@[i].1->String_0@ == t,
                    None => ms@[i].1 == Json::U64(nums[i]),
                }
        },
        _ => false,
    }
}

/// The JSON form of an n-gram definition: `ngram`, or `edgeNGram` with
/// `side` `front` (left) or `back` (right), with its sizes.
pub open spec fn ngram_shape(j: Json, min_size: usize, max_size: usize, edge: Edge) -> bool {
    match edge {
        Edge::Neither => json_shape(
            j,
            seq!["type"@, "min_gram"@, "max_gram"@],
            seq![Some("ngram"@), None, None],
            seq![0, min_size as u64, max_size as u64],
        ),
        Edge::Left => json_shape(
            j,
            seq!["type"@, "side"@, "min_gram"@, "max_gram"@],
            seq![Some("edgeNGram"@), Some("front"@), None, None],
            seq![0, 0, min_size as u64, max_size as u64],
        ),
        Edge::Right => json_shape(
            j,
            seq!["type"@, "side"@, "min_gram"@, "max_gram"@],
            seq![Some("edgeNGram"@), Some("back"@), None, None],
            seq![0, 0, min_size as u64, max_size as u64],
        ),
    }
}

fn text_member(k: &str, v: &str) -> (r: (String, Json))
    ensures
        r.0@ == k@,
        r.1 is String && r.1->String_0@ == v@,
{
    (String::from_str(k), Json::String(String::from_str(v)))
}

fn type_only(t: &str) -> (r: Json)
    ensures
        json_shape(r, seq!["type"@], seq![Some(t@)], seq![0]),
{
    let mut ms: Vec<(String, Json)> = Vec::new();
    ms.push(text_member("type", t));
    let r = Json::Object(ms);
    assert(json_shape(r, seq!["type"@], seq![Some(t@)], seq![0])) by {
        assert(ms@[0].0@ == "type"@);
    }
    r
}

fn ngram_json(min_size: usize, max_size: usize, edge: Edge) -> (r: Json)
    ensures
        ngram_shape(r, min_size, max_size, edge),
{
    let mut ms: Vec<(String, Json)> = Vec::new();
    match edge {
        Edge::Neither => {
            ms.push(text_member("type", "ngram"));
        },
        Edge::Left => {
            ms.push(text_member("type", "edgeNGram"));
            ms.push(text_member("side", "front"));
        },
        Edge::Right => {
            ms.push(text_member("type", "edgeNGram"));
            ms.push(text_member("side", "back"));
        },
    }
    ms.push((String::from_str("min_gram"), Json::U64(min_size as u64)));
    ms.push((String::from_str("max_gram"), Json::U64(max_size as u64)));
    let r = Json::Object(ms);
    r
}

impl TokenizerSpec {
    /// The JSON form of this tokenizer: `{"type": "standard"}`,
    /// `{"type": "lowercase"}`, or an n-gram definition (see `ngram_shape`).
    pub fn to_json(&self) -> (r: Json)
        ensures
            match *self {
                TokenizerSpec::Standard => json_shape(r, seq!["type"@], seq![Some("standard"@)], seq![0]),
                TokenizerSpec::Lowercase => json_shape(r, seq!["type"@], seq![Some("lowercase"@)], seq![0]),
                TokenizerSpec::NGram { min_size, max_size, edge } => ngram_shape(r, min_size, max_size, edge),
            },
    {
        match *self {
            TokenizerSpec::Standard => type_only("standard"),
            TokenizerSpec::Lowercase => type_only("lowercase"),
            TokenizerSpec::NGram { min_size, max_size, edge } => ngram_json(min_size, max_size, edge),
        }
    }
}

impl FilterSpec {
    /// The JSON form of this filter: `{"type": "lowercase"}`,
    /// `{"type": "asciifolding"}`, or an n-gram definition (see
    /// `ngram_shape`).
    pub fn to_json(&self) -> (r: Json)
        ensures
            match *self {
                FilterSpec::Lowercase => json_shape(r, seq!["type"@], seq![Some("lowercase"@)], seq![0]),
                FilterSpec::ASCIIFolding => json_shape(r, seq!["type"@], seq![Some("asciifolding"@)], seq![0]),
                FilterSpec::NGram { min_size, max_size, edge } => ngram_shape(r, min_size, max_size, edge),
            },
    {
        match *self {
            FilterSpec::Lowercase => type_only("lowercase"),
            FilterSpec::ASCIIFolding => type_only("asciifolding"),
            FilterSpec::NGram { min_size, max_size, edge } => ngram_json(min_size, max_size, edge),
        }
    }
}

/// Terms numbered by position, starting at 1.
pub open spec fn numbered(terms: Seq<Seq<char>>) -> Seq<(Seq<char>, nat)> {
    Seq::new(terms.len(), |i: int| (terms[i], (i + 1) as nat))
}

/// What one filter makes of one token.
pub open spec fn expand(f: FilterSpec, t: (Seq<char>, nat)) -> Seq<(Seq<char>, nat)> {
    match f {
        FilterSpec::Lowercase => seq![(lowercase_of(t.0), t.1)],
        FilterSpec::ASCIIFolding => seq![(fold_text(t.0), t.1)],
        FilterSpec::NGram { min_size, max_size, edge } => ngrams(
            t.0,
            min_size as nat,
            max_size as nat,
            edge,
        ).map_values(|g: Seq<char>| (g, t.1)),
    }
}

/// What one filter makes of a token sequence: the expansions of the tokens,
/// in the order of the tokens.
pub open spec fn filter_output(f: FilterSpec, ts: Seq<(Seq<char>, nat)>) -> Seq<(Seq<char>, nat)>
    decreases ts.len(),
{
    if ts.len() == 0 {
        seq![]
    } else {
        filter_output(f, ts.drop_last()) + expand(f, ts.last())
    }
}

/// What a tokenizer makes of a text.
pub open spec fn tokenizer_output(t: TokenizerSpec, s: Seq<char>) -> Seq<(Seq<char>, nat)> {
    match t {
        TokenizerSpec::Standard => numbered(words_of(s)),
        TokenizerSpec::Lowercase => filter_output(FilterSpec::Lowercase, numbered(words_of(s))),
        TokenizerSpec::NGram { min_size, max_size, edge } => numbered(
            ngrams(s, min_size as nat, max_size as nat, edge),
        ),
    }
}

/// A chain of filters applied to a token sequence, first filter first.
pub open spec fn apply_filters(fs: Seq<FilterSpec>, ts: Seq<(Seq<char>, nat)>) -> Seq<
    (Seq<char>, nat),
>
    decreases fs.len(),
{
    if fs.len() == 0 {
        ts
    } else {
        filter_output(fs.last(), apply_filters(fs.drop_last(), ts))
    }
}

proof fn lemma_push_token(v: Seq<Token>, t: Token)
    ensures
        tokens_view(v.push(t)) == tokens_view(v).push(t@),
{
    assert(tokens_view(v.push(t)) =~= tokens_view(v).push(t@));
}

/// Turns terms into tokens at positions 1, 2, 3, ...
fn number_terms(terms: &Vec<String>) -> (r: Vec<Token>)
    ensures
        tokens_view(r@) == numbered(string_views(terms@)),
{
    let mut out: Vec<Token> = Vec::new();
    let mut i: usize = 0;
    while i < terms.len()
        invariant
            i <= terms.len(),
            tokens_view(out@) =~= numbered(string_views(terms@)).subrange(0, i as int),
        decreases terms.len() - i,
    {
        let t = Token { term: terms[i].clone(), position: i + 1 };
        proof { lemma_push_token(out@, t); }
        out.push(t);
        assert(tokens_view(out@) =~= numbered(string_views(terms@)).subrange(0, i + 1));
        i = i + 1;
    }
    out
}

proof fn lemma_filter_step(f: FilterSpec, ts: Seq<(Seq<char>, nat)>, i: int)
    requires
        0 <= i < ts.len(),
    ensures
        filter_output(f, ts.subrange(0, i + 1)) == filter_output(f, ts.subrange(0, i)) + expand(
            f,
            ts[i],
        ),
{
    assert(ts.subrange(0, i + 1).drop_last() =~= ts.subrange(0, i));
}

/// Appends to `out` the tokens that one filter makes of `t`.
fn expand_token(f: FilterSpec, t: &Token, out: &mut Vec<Token>)
    ensures
        tokens_view(final(out)@) == tokens_view(old(out)@) + expand(f, t@),
        f == FilterSpec::ASCIIFolding && all_ascii(t.term@) ==> fold_text(t.term@) == t.term@,
{
    match f {
        FilterSpec::Lowercase => {
            let nt = Token { term: to_lowercase(t.term.as_str()), position: t.position };
            out.push(nt);
            assert(tokens_view(out@) =~= tokens_view(old(out)@) + expand(f, t@));
        },
        FilterSpec::ASCIIFolding => {
            let nt = Token { term: fold_term(t.term.as_str()), position: t.position };
            out.push(nt);
            assert(tokens_view(out@) =~= tokens_view(old(out)@) + expand(f, t@));
        },
        FilterSpec::NGram { min_size, max_size, edge } => {
            let grams = ngrams_of(t.term.as_str(), min_size, max_size, edge);
            let ghost pos = t@.1;
            let ghost all = string_views(grams@).map_values(|g: Seq<char>| (g, pos));
            assert(all == expand(f, t@));
            let mut j: usize = 0;
            while j < grams.len()
                invariant
                    j <= grams.len(),
                    pos == t.position as nat,
                    all == string_views(grams@).map_values(|g: Seq<char>| (g, pos)),
                    tokens_view(out@) == tokens_view(old(out)@) + all.subrange(0, j as int),
                decreases grams.len() - j,
            {
                let nt = Token { term: grams[j].clone(), position: t.position };
                proof { lemma_push_token(out@, nt); }
                out.push(nt);
                assert(tokens_view(out@) =~= tokens_view(old(out)@) + all.subrange(0, j + 1));
                j = j + 1;
            }
            assert(all.subrange(0, all.len() as int) =~= all);
        },
    }
}

impl TokenizerSpec {
    /// Tokenizes `input`: each token's position is its 1-based index.
    pub fn initialise(&self, input: &str) -> (r: Vec<Token>)
        ensures
            tokens_view(r@) == tokenizer_output(*self, input@),
    {
        match *self {
            TokenizerSpec::Standard => {
                let words = unicode_words(input);
                number_terms(&words)
            },
            TokenizerSpec::Lowercase => {
                let words = unicode_words(input);
                let tokens = number_terms(&words);
                FilterSpec::Lowercase.initialise(tokens)
            },
            TokenizerSpec::NGram { min_size, max_size, edge } => {
                let grams = ngrams_of(input, min_size, max_size, edge);
                number_terms(&grams)
            },
        }
    }
}

impl FilterSpec {
    /// Applies this filter to a token sequence. Lowercasing and ASCII
    /// folding map each token to one token at the same position; ASCII
    /// folding leaves a pure-ASCII term as it is, and keeps any character
    /// that has no ASCII equivalent (see `fold_text`). The n-gram filter replaces
    /// each token by its n-grams, all at that token's position.
    pub fn initialise(&self, input: Vec<Token>) -> (r: Vec<Token>)
        ensures
            tokens_view(r@) == filter_output(*self, tokens_view(input@)),
            *self == FilterSpec::ASCIIFolding ==> r@.len() == input@.len() && forall|i: int|
                0 <= i < input@.len() && all_ascii(#[trigger] input@[i].term@) ==> r@[i]@
                    == input@[i]@,
    {
        let f = *self;
        let ghost tv = tokens_view(input@);
        let mut out: Vec<Token> = Vec::new();
        let mut i: usize = 0;
        while i < input.len()
            invariant
                i <= input.len(),
                f == *self,
                tv == tokens_view(input@),
                tokens_view(out@) == filter_output(f, tv.subrange(0, i as int)),
                f == FilterSpec::ASCIIFolding ==> out@.len() == i && forall|k: int|
                    0 <= k < i && all_ascii(#[trigger] input@[k].term@) ==> out@[k]@ == input@[k]@,
            decreases input.len() - i,
        {
            let ghost before = out@;
            expand_token(f, &input[i], &mut out);
            proof {
                lemma_filter_step(f, tv, i as int);
                if f == FilterSpec::ASCIIFolding {
                    assert(tokens_view(out@).len() == tokens_view(before).len() + 1);
                    assert forall|k: int|
                        0 <= k <= i && all_ascii(#[trigger] input@[k].term@) implies out@[k]@
                        == input@[k]@ by {
                        if k < i {
                            assert(tokens_view(out@)[k] == tokens_view(before)[k]);
                            assert(out@[k]@ == before[k]@);
                        } else {
                            assert(tokens_view(out@)[k] == expand(f, tv[k])[0]);
                        }
                    }
                }
            }
            i = i + 1;
        }
        assert(tv.subrange(0, tv.len() as int) =~= tv);
        out
    }
}


/// One tokenizer followed by an ordered chain of filters.
#[derive(Clone, Debug, PartialEq, Eq)]
pub struct AnalyzerSpec {
    pub tokenizer: TokenizerSpec,
    pub filters: Vec<FilterSpec>,
}

/// What an analyzer makes of a text.
pub open spec fn analyze(tokenizer: TokenizerSpec, filters: Seq<FilterSpec>, s: Seq<char>) -> Seq<
    (Seq<char>, nat),
> {
    apply_filters(filters, tokenizer_output(tokenizer, s))
}

impl AnalyzerSpec {
    /// Word segmentation followed by lowercasing.
    pub fn standard() -> (r: AnalyzerSpec)
        ensures
            r.tokenizer == TokenizerSpec::Standard,
            r.filters@ == seq![FilterSpec::Lowercase],
    {
        AnalyzerSpec { tokenizer: TokenizerSpec::Standard, filters: vec![FilterSpec::Lowercase] }
    }

    /// Prefix completion: lowercased words, each replaced by its prefixes of
    /// 2 to 15 characters.
    pub fn edge_ngram() -> (r: AnalyzerSpec)
        ensures
            r.tokenizer == TokenizerSpec::Standard,
            r.filters@ == seq![
                FilterSpec::Lowercase,
                FilterSpec::NGram { min_size: 2, max_size: 15, edge: Edge::Left },
            ],
    {
        AnalyzerSpec {
            tokenizer: TokenizerSpec::Standard,
            filters: vec![
                FilterSpec::Lowercase,
                FilterSpec::NGram { min_size: 2, max_size: 15, edge: Edge::Left },
            ],
        }
    }

    /// Runs the tokenizer over `input`, then each filter in turn.
    pub fn run(&self, input: &str) -> (r: Vec<Token>)
        ensures
            tokens_view(r@) == analyze(self.tokenizer, self.filters@, input@),
    {
        let mut tokens = self.tokenizer.initialise(input);
        let mut i: usize = 0;
        while i < self.filters.len()
            invariant
                i <= self.filters.len(),
                tokens_view(tokens@) == apply_filters(
                    self.filters@.subrange(0, i as int),
                    tokenizer_output(self.tokenizer, input@),
                ),
            decreases self.filters.len() - i,
        {
            let f = self.filters[i];
            tokens = f.initialise(tokens);
            assert(self.filters@.subrange(0, i + 1).drop_last() =~= self.filters@.subrange(
                0,
                i as int,
            ));
            i = i + 1;
        }
        assert(self.filters@.subrange(0, self.filters.len() as int) =~= self.filters@);
        tokens
    }

    /// The terms of `run`, in emission order.
    pub fn terms(&self, input: &str) -> (r: Vec<String>)
        ensures
            string_views(r@) == analyze(self.tokenizer, self.filters@, input@).map_values(
                |t: (Seq<char>, nat)| t.0,
            ),
    {
        let tokens = self.run(input);
        let ghost tv = tokens_view(tokens@);
        let mut out: Vec<String> = Vec::new();
        let mut i: usize = 0;
        while i < tokens.len()
            invariant
                i <= tokens.len(),
                tv == tokens_view(tokens@),
                string_views(out@) =~= tv.map_values(|t: (Seq<char>, nat)| t.0).subrange(
                    0,
                    i as int,
                ),
            decreases tokens.len() - i,
        {
            let w = tokens[i].term.clone();
            proof { lemma_push_view(out@, w); }
            out.push(w);
            i = i + 1;
        }
        out
    }
}

/// Standard tokenization with no filters gives exactly the words of the
/// text, at positions 1, 2, 3, ... (strictly increasing from 1).
pub proof fn lemma_standard_without_filters(s: Seq<char>)
    ensures
        analyze(TokenizerSpec::Standard, seq![], s).len() == words_of(s).len(),
        forall|i: int|
            0 <= i < words_of(s).len() ==> (#[trigger] analyze(
                TokenizerSpec::Standard,
                seq![],
                s,
            )[i]).0 == words_of(s)[i] && analyze(TokenizerSpec::Standard, seq![], s)[i].1 == i
                + 1,
        forall|i: int, j: int|
            0 <= i < j < words_of(s).len() ==> analyze(TokenizerSpec::Standard, seq![], s)[i].1
                < analyze(TokenizerSpec::Standard, seq![], s)[j].1,
{
}

/// A filter that maps each token to exactly one token keeps the count and
/// the positions: lowercasing gives the lowercase form of each term.
pub proof fn lemma_lowercase_filter(ts: Seq<(Seq<char>, nat)>)
    ensures
        filter_output(FilterSpec::Lowercase, ts).len() == ts.len(),
        forall|i: int|
            0 <= i < ts.len() ==> #[trigger] filter_output(FilterSpec::Lowercase, ts)[i] == (
                lowercase_of(ts[i].0),
                ts[i].1,
            ),
    decreases ts.len(),
{
    if ts.len() > 0 {
        lemma_lowercase_filter(ts.drop_last());
        let prev = filter_output(FilterSpec::Lowercase, ts.drop_last());
        assert forall|i: int| 0 <= i < ts.len() implies #[trigger] filter_output(
            FilterSpec::Lowercase,
            ts,
        )[i] == (lowercase_of(ts[i].0), ts[i].1) by {
            if i < ts.len() - 1 {
                assert(filter_output(FilterSpec::Lowercase, ts)[i] == prev[i]);
            }
        }
    }
}

} // verus!
