use phonologic::errors::PhlParseError;
use phonologic::features::FeatureValue;
use phonologic::parser::{parse_features, parse_lines, tokenize, tokenize_definition};

fn owned(v: Vec<&str>) -> Vec<String> {
    v.into_iter().map(|s| s.to_string()).collect()
}

#[test]
fn test_parse() {
    let test_cases = [
        (
            "<glide> = [-syl, -cons, +appr, +son]",
            vec!["<glide>", "=", "[-syl, -cons, +appr, +son]"],
        ),
        (
            "t̪͡θ = <voiceless> <dental> <affricate> [-strid, -lat]",
            vec!["t̪͡θ", "=", "<voiceless>", "<dental>", "<affricate>", "[-strid, -lat]"],
        ),
        ("<a>=<b>", vec!["<a>", "=", "<b>"]),
        ("<a> =<b>", vec!["<a>", "=", "<b>"]),
        ("<a>= <b>", vec!["<a>", "=", "<b>"]),
        (
            "a͡ʊ = a [-+high, -+low, 0-tense, -+back, -+round]",
            vec!["a͡ʊ", "=", "a", "[-+high, -+low, 0-tense, -+back, -+round]"],
        ),
        ("# This is a comment.", vec![]),
        ("<a> = <b>  # This is a comment.", vec!["<a>", "=", "<b>"]),
        (
            "# Diphthongs use special symbols: `+-` means the feature goes from present to absent, `-+` is the reverse.",
            vec![],
        ),
    ];
    for (statement, expected) in test_cases {
        let tokens = tokenize(statement).unwrap();
        assert_eq!(tokens, owned(expected));
    }
}

#[test]
fn test_parse_features() {
    let test_cases: Vec<(&str, Vec<(&str, &str, f64)>)> = vec![
        ("[]", vec![]),
        ("[-syl]", vec![("-", "syl", -1.0)]),
        (
            "[-syl, +appr, 0son]",
            vec![("-", "syl", -1.0), ("+", "appr", 1.0), ("0", "son", 0.0)],
        ),
    ];
    for (s, expected) in test_cases.into_iter() {
        let features = parse_features(s).unwrap();
        let feature_tuples: Vec<(&str, &str, f64)> = features
            .iter()
            .map(|f| {
                let halves = f.value.halves().unwrap();
                (f.value.canonical_text(), &f.name[..], halves as f64 / 2.0)
            })
            .collect();
        assert_eq!(expected, feature_tuples);
    }
}

#[test]
fn test_parse_features_unspecified() {
    let features = parse_features("[?syl, +-appr, -+son]").unwrap();
    assert_eq!(features.len(), 3);
    assert_eq!(features[0].value, FeatureValue::Unspecified);
    assert!(features[0].value.halves().is_none());
    assert_eq!(features[1].value, FeatureValue::PlusMinus);
    assert_eq!(features[1].value.halves(), Some(1));
    assert_eq!(features[2].value, FeatureValue::MinusPlus);
    assert_eq!(features[2].value.halves(), Some(-1));
}

#[test]
fn test_parse_features_errors() {
    assert!(matches!(
        parse_features("[syl]"),
        Err(PhlParseError::InvalidFeatureValueError(_))
    ));
    assert!(matches!(
        parse_features("[+]"),
        Err(PhlParseError::InvalidFeatureNameError(_))
    ));
    assert!(matches!(
        parse_features("[%syl]"),
        Err(PhlParseError::InvalidTokenError(_))
    ));
}

#[test]
fn test_tokenize_errors() {
    assert!(matches!(
        tokenize("a = [unclosed"),
        Err(PhlParseError::InvalidTokenError(_))
    ));
    assert!(matches!(
        tokenize("a = b]"),
        Err(PhlParseError::InvalidTokenError(_))
    ));
    assert!(matches!(
        tokenize("a = <unclosed"),
        Err(PhlParseError::InvalidTokenError(_))
    ));
}

#[test]
fn test_tokenize_definition_shapes() {
    assert!(tokenize_definition("").unwrap().is_none());
    assert!(tokenize_definition("   # only a comment").unwrap().is_none());
    assert!(matches!(
        tokenize_definition("a ="),
        Err(PhlParseError::SyntaxError(_))
    ));
    assert!(matches!(
        tokenize_definition("a b c"),
        Err(PhlParseError::SyntaxError(_))
    ));
    assert!(matches!(
        tokenize_definition("a = b = c"),
        Err(PhlParseError::InvalidTokenError(_))
    ));
    let d = tokenize_definition("a = <b> [+f]").unwrap().unwrap();
    assert_eq!(d.symbol.0, "a");
    assert_eq!(d.items.len(), 2);
}

#[test]
fn test_parse_lines() {
    let test_cases = [(
        vec![
            "<default> = [0labial, 0labiodental, 0coronal, 0dorsal, 0lateral, 0sonorant, 0approximant, 0continuant, 0syllabic, 0consonantal, 0delayedrelease, 0voice]",
            "<labiodental> = [+labial, +labiodental, -coronal, -dorsal, -lateral]",
        ],
        (),
    )];
    for (lines, ()) in test_cases {
        let parsed = parse_lines(&lines).unwrap();
        assert_eq!(parsed.len(), 2)
    }
}

#[test]
fn test_parse_lines_first_error_wins() {
    let lines = vec!["<default> = [0f1]", "a =", "b = ["];
    assert!(matches!(
        parse_lines(&lines),
        Err(PhlParseError::SyntaxError(_))
    ));
}
