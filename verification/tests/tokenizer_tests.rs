use phonologic::features::Symbol;
use phonologic::parser::parse_lines;
use phonologic::phoneme_tokenizer::PhonemeTokenizer;
use phonologic::systems::PhonologicalFeatureSystem;

fn build_tokenizer(lines: Vec<&str>) -> PhonemeTokenizer {
    let defs = parse_lines(&lines).unwrap();
    let system = PhonologicalFeatureSystem::build(&defs).unwrap();
    PhonemeTokenizer::build(&system)
}

fn texts(tokens: Vec<Symbol>) -> Vec<String> {
    tokens.into_iter().map(|s| s.0).collect()
}

fn owned(v: Vec<&str>) -> Vec<String> {
    v.into_iter().map(|s| s.to_string()).collect()
}

#[test]
fn test_longest_match_wins() {
    let tokenizer = build_tokenizer(vec![
        "<default> = [0f1]",
        "a = [0f1]",
        "b = [0f1]",
        "ab = [+f1]",
    ]);
    assert_eq!(texts(tokenizer.tokenize("abb")), owned(vec!["ab", "b"]));
    assert_eq!(texts(tokenizer.tokenize("ba")), owned(vec!["b", "a"]));
    assert_eq!(texts(tokenizer.tokenize("abab")), owned(vec!["ab", "ab"]));
    assert_eq!(texts(tokenizer.tokenize("")), owned(vec![]));
}

#[test]
fn test_separators_and_ignores_are_dropped() {
    let tokenizer = build_tokenizer(vec!["<default> = [0f1]", "a = [0f1]", "b = [0f1]"]);
    assert_eq!(texts(tokenizer.tokenize("a b")), owned(vec!["a", "b"]));
    assert_eq!(texts(tokenizer.tokenize("/aˈb/")), owned(vec!["a", "b"]));
    assert_eq!(texts(tokenizer.tokenize("[ab]")), owned(vec!["a", "b"]));
}

#[test]
fn test_zero_cost_markers_are_tokens() {
    let tokenizer = build_tokenizer(vec!["<default> = [0f1]", "a = [0f1]"]);
    assert_eq!(
        texts(tokenizer.tokenize("a <spn>")),
        owned(vec!["a", "<spn>"])
    );
    assert_eq!(
        texts(tokenizer.tokenize("<sil><unk>")),
        owned(vec!["<sil>", "<unk>"])
    );
}

#[test]
fn test_unknown_characters_become_single_tokens() {
    let tokenizer = build_tokenizer(vec!["<default> = [0f1]", "a = [0f1]"]);
    assert_eq!(texts(tokenizer.tokenize("a!a")), owned(vec!["a", "!", "a"]));
    assert_eq!(texts(tokenizer.tokenize("xy")), owned(vec!["x", "y"]));
}

#[test]
fn test_class_symbols_are_not_tokenized() {
    let with_class = build_tokenizer(vec![
        "<default> = [0f1]",
        "a = [0f1]",
        "b = [0f1]",
        "<ab> = [+f1]",
    ]);
    // The class <ab> may not match literal input; its letters split apart.
    assert_eq!(texts(with_class.tokenize("ab")), owned(vec!["a", "b"]));

    let with_literal = build_tokenizer(vec![
        "<default> = [0f1]",
        "a = [0f1]",
        "b = [0f1]",
        "ab = [+f1]",
    ]);
    assert_eq!(texts(with_literal.tokenize("ab")), owned(vec!["ab"]));
}

#[test]
fn test_multibyte_digraph_preferred() {
    let tokenizer = build_tokenizer(vec![
        "<default> = [0f1]",
        "o = [0f1]",
        "ʊ = [0f1]",
        "oʊ = [+f1]",
        "p = [0f1]",
    ]);
    assert_eq!(texts(tokenizer.tokenize("oʊp")), owned(vec!["oʊ", "p"]));
    assert_eq!(texts(tokenizer.tokenize("ʊo")), owned(vec!["ʊ", "o"]));
}
