use rusticsearch::analysis::{fold_term, ngrams_of, AnalyzerSpec, Edge, FilterSpec, Token, TokenizerSpec};

fn tok(term: &str, position: usize) -> Token {
    Token { term: term.to_string(), position }
}

fn terms(tokens: &[Token]) -> Vec<String> {
    tokens.iter().map(|t| t.term.clone()).collect()
}

#[test]
fn standard_tokenizer_splits_words() {
    let tokens = TokenizerSpec::Standard.initialise("Hello, world!");
    assert_eq!(tokens, vec![tok("Hello", 1), tok("world", 2)]);
}

#[test]
fn standard_tokenizer_positions_increase_from_one() {
    let tokens = TokenizerSpec::Standard.initialise("The quick (\"brown\") fox can't jump 32.3 feet, right?");
    assert_eq!(
        terms(&tokens),
        vec!["The", "quick", "brown", "fox", "can't", "jump", "32.3", "feet", "right"]
    );
    for (i, t) in tokens.iter().enumerate() {
        assert_eq!(t.position, i + 1);
    }
}

#[test]
fn standard_tokenizer_empty_text() {
    assert_eq!(TokenizerSpec::Standard.initialise(""), vec![]);
    assert_eq!(TokenizerSpec::Standard.initialise(" ,.; "), vec![]);
}

#[test]
fn analyzer_without_filters_equals_tokenizer() {
    let a = AnalyzerSpec { tokenizer: TokenizerSpec::Standard, filters: vec![] };
    assert_eq!(a.run("Up from the bowels"), TokenizerSpec::Standard.initialise("Up from the bowels"));
}

#[test]
fn lowercase_tokenizer() {
    let tokens = TokenizerSpec::Lowercase.initialise("Hello, WORLD!");
    assert_eq!(tokens, vec![tok("hello", 1), tok("world", 2)]);
}

#[test]
fn ngram_tokenizer_enumeration_order() {
    let spec = TokenizerSpec::NGram { min_size: 2, max_size: 3, edge: Edge::Neither };
    let tokens = spec.initialise("cat");
    assert_eq!(tokens, vec![tok("ca", 1), tok("at", 2), tok("cat", 3)]);
}

#[test]
fn edge_ngram_left_and_right() {
    let left = TokenizerSpec::NGram { min_size: 1, max_size: 3, edge: Edge::Left };
    assert_eq!(terms(&left.initialise("cats")), vec!["c", "ca", "cat"]);
    let right = TokenizerSpec::NGram { min_size: 1, max_size: 3, edge: Edge::Right };
    assert_eq!(terms(&right.initialise("cats")), vec!["s", "ts", "ats"]);
}

#[test]
fn ngrams_of_edge_cases() {
    assert!(ngrams_of("cat", 3, 2, Edge::Neither).is_empty());
    assert!(ngrams_of("cat", 4, 9, Edge::Neither).is_empty());
    assert_eq!(ngrams_of("cat", 0, 1, Edge::Neither), vec!["c", "a", "t"]);
    assert_eq!(ngrams_of("cat", 2, usize::MAX, Edge::Left), vec!["ca", "cat"]);
    assert_eq!(ngrams_of("héé", 2, 2, Edge::Neither), vec!["hé", "éé"]);
}

#[test]
fn lowercase_filter_keeps_count_and_positions() {
    let input = vec![tok("Hello", 1), tok("WORLD", 2), tok("ÉTÉ", 7)];
    let out = FilterSpec::Lowercase.initialise(input);
    assert_eq!(out, vec![tok("hello", 1), tok("world", 2), tok("été", 7)]);
}

#[test]
fn ascii_folding_filter() {
    let out = FilterSpec::ASCIIFolding.initialise(vec![tok("café", 1), tok("plain", 2)]);
    assert_eq!(out, vec![tok("cafe", 1), tok("plain", 2)]);
}

#[test]
fn ngram_filter_shares_positions() {
    let f = FilterSpec::NGram { min_size: 1, max_size: 2, edge: Edge::Left };
    let out = f.initialise(vec![tok("ab", 1), tok("xyz", 2)]);
    assert_eq!(out, vec![tok("a", 1), tok("ab", 1), tok("x", 2), tok("xy", 2)]);
}

#[test]
fn edge_ngram_preset() {
    let a = AnalyzerSpec::edge_ngram();
    let out = a.terms("Up Hell");
    assert_eq!(out, vec!["up", "he", "hel", "hell"]);
}

#[test]
fn ascii_folding_keeps_characters_without_equivalent() {
    assert_eq!(fold_term("café"), "cafe");
    assert_eq!(fold_term("a\u{1F600}b"), "a\u{1F600}b");
    assert_eq!(fold_term("Straße"), "Strasse");
    assert_eq!(fold_term(""), "");
}
