use phonologic::errors::PhlParseError;
use phonologic::features::{FeatureValue, Symbol};
use phonologic::parser::parse_lines;
use phonologic::systems::PhonologicalFeatureSystem;

fn build(lines: Vec<&str>) -> PhonologicalFeatureSystem {
    let defs = parse_lines(&lines).unwrap();
    PhonologicalFeatureSystem::build(&defs).unwrap()
}

#[test]
fn test_build_system() {
    let test_cases = [
        (
            vec!["<default> = [0feat1, 0feat2, 0feat3]", "a = [+feat1, -feat2]"],
            vec!["<default> = [0feat1, 0feat2, 0feat3]", "a = [+feat1, -feat2, 0feat3]"],
        ),
        (
            vec!["<default> = [?feat1, ?feat2, 0feat3]", "a = [+feat1, -feat2]"],
            vec!["<default> = [?feat1, ?feat2, 0feat3]", "a = [+feat1, -feat2, 0feat3]"],
        ),
        (
            vec![
                "<default> = [?feat1, ?feat2, 0feat3]",
                "<myclass> = [+feat1, -feat2]",
                "a = <myclass> [+feat1]",
                "b = <myclass> [-feat1]",
            ],
            vec![
                "<default> = [?feat1, ?feat2, 0feat3]",
                "a = [+feat1, -feat2, 0feat3]",
                "b = [-feat1, -feat2, 0feat3]",
            ],
        ),
    ];
    for (actual_lines, check_entries) in test_cases {
        let actual_system = build(actual_lines);
        let expect_system = build(check_entries);
        for expect_entry in &expect_system.entries {
            let actual_entry = actual_system.get_for_symbol(&expect_entry.symbol).unwrap();
            assert_eq!(expect_entry.features, actual_entry.features);
        }
    }
}

#[test]
fn test_build_scenario_resolves_literal_list() {
    let system = build(vec!["<default> = [0f1,0f2]", "a = [+f1,-f2]"]);
    let a = system.get_for_symbol(&Symbol::new("a")).unwrap();
    assert_eq!(a.features.len(), 2);
    assert_eq!(a.features[0].value, FeatureValue::Plus);
    assert_eq!(a.features[0].name, "f1");
    assert_eq!(a.features[1].value, FeatureValue::Minus);
    assert_eq!(a.features[1].name, "f2");
}

#[test]
fn test_redefined_symbol() {
    let lines = vec!["<default> = [0f1]", "a = [0f1]", "a = [0f1]"];
    let defs = parse_lines(&lines).unwrap();
    let result = PhonologicalFeatureSystem::build(&defs);
    assert!(matches!(result, Err(PhlParseError::RedefinedSymbolError(_))));
}

#[test]
fn test_must_have_default() {
    let defs = parse_lines(&vec!["a = [0f1]"]).unwrap();
    assert!(matches!(
        PhonologicalFeatureSystem::build(&defs),
        Err(PhlParseError::MustHaveDefaultError)
    ));
    let none = parse_lines(&vec!["# nothing here"]).unwrap();
    assert!(matches!(
        PhonologicalFeatureSystem::build(&none),
        Err(PhlParseError::MustHaveDefaultError)
    ));
    let twice = parse_lines(&vec!["<default> = [0f1] [0f1]"]).unwrap();
    assert!(matches!(
        PhonologicalFeatureSystem::build(&twice),
        Err(PhlParseError::MustHaveDefaultError)
    ));
}

#[test]
fn test_symbol_not_defined() {
    let defs = parse_lines(&vec!["<default> = [0f1]", "a = missing"]).unwrap();
    assert!(matches!(
        PhonologicalFeatureSystem::build(&defs),
        Err(PhlParseError::SymbolNotDefinedError(_))
    ));
}

#[test]
fn test_rebuild_round_trip() {
    let system = build(vec![
        "<default> = [?f1, ?f2, 0f3]",
        "<myclass> = [+f1, -f2]",
        "a = <myclass> [+f1]",
        "b = <myclass> [-f1]",
        "c = a [+-f2, -+f3]",
    ]);
    let lines = system.render_lines();
    let line_refs: Vec<&str> = lines.iter().map(|s| s.as_str()).collect();
    let defs = parse_lines(&line_refs).unwrap();
    let rebuilt = PhonologicalFeatureSystem::build(&defs).unwrap();
    assert_eq!(system.entries, rebuilt.entries);
    assert_eq!(system.num_features, rebuilt.num_features);
}

#[test]
fn test_render_lines_exact_text() {
    let system = build(vec!["<default> = [0f1,?f2]", "a = <default> [+f1]"]);
    let lines = system.render_lines();
    assert_eq!(lines, vec!["<default> = [0f1, ?f2]", "a = [+f1, ?f2]"]);
}

#[test]
fn test_deltas() {
    let system = build(vec!["<default> = [0f1,0f2,0f3]", "p = [+f1]", "q = [-f1, +f3]"]);
    let ds = system.deltas(&Symbol::new("p"), &Symbol::new("q")).unwrap();
    assert_eq!(ds.len(), 2);
    assert_eq!(ds[0].name, "f1");
    assert_eq!(ds[0].left, FeatureValue::Plus);
    assert_eq!(ds[0].right, FeatureValue::Minus);
    assert_eq!(ds[1].name, "f3");
    assert_eq!(ds[1].left, FeatureValue::Zero);
    assert_eq!(ds[1].right, FeatureValue::Plus);

    let missing = system.deltas(&Symbol::new("p"), &Symbol::new("zz"));
    assert!(missing.is_err());
}

#[test]
fn test_symbol_basics() {
    let s = Symbol::new("<cls>");
    assert!(s.is_class());
    assert_eq!(s.len(), 5);
    assert!(!Symbol::new("a").is_class());
    assert!(!Symbol::new("<").is_class());
    assert!(!Symbol::new("").is_class());
    assert_eq!(Symbol::new("oʊ").len(), 2);
    assert_eq!(Symbol::new("ab"), Symbol::new("ab"));
    assert_ne!(Symbol::new("ab"), Symbol::new("ba"));
}
