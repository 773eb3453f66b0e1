use phonologic::errors::PhlDistanceError;
use phonologic::feature_distance::FeatureCostCalculator;
use phonologic::features::Symbol;
use phonologic::levenshtein::{edit_distance, Cost, LevenshteinStep};
use phonologic::parser::parse_lines;
use phonologic::phoneme_distance::PhonemeCostCalculator;
use phonologic::systems::PhonologicalFeatureSystem;

fn cost_f64(c: &Cost) -> f64 {
    match c {
        Cost::Value(q) => *q as f64 / 4.0,
        Cost::Infinite => f64::INFINITY,
        Cost::Unknown => f64::NAN,
    }
}

fn total_f64(steps: &Vec<LevenshteinStep>) -> f64 {
    steps.iter().map(|s| cost_f64(&s.cost)).sum()
}

fn actions(steps: &Vec<LevenshteinStep>) -> Vec<String> {
    steps.iter().map(|s| format!("{:?}", s.action)).collect()
}

fn syms(s: &str) -> Vec<Symbol> {
    s.chars().map(|c| Symbol(c.to_string())).collect()
}

fn build(lines: Vec<&str>) -> PhonologicalFeatureSystem {
    let defs = parse_lines(&lines).unwrap();
    PhonologicalFeatureSystem::build(&defs).unwrap()
}

#[test]
fn test_backtrace() {
    let test_cases: Vec<(&str, &str, f64, Vec<&str>)> = vec![
        ("", "", 0.0, vec![]),
        ("A", "A", 0.0, vec!["EQ"]),
        ("AA", "AA", 0.0, vec!["EQ", "EQ"]),
        ("A", "B", 1.0, vec!["SUB"]),
        ("AA", "BB", 2.0, vec!["SUB", "SUB"]),
        ("AB", "A", 1.0, vec!["EQ", "DEL"]),
        ("A", "AB", 1.0, vec!["EQ", "INS"]),
        ("ABC", "BB", 2.0, vec!["SUB", "EQ", "DEL"]),
        ("BB", "ABC", 2.0, vec!["SUB", "EQ", "INS"]),
        ("AAA", "AA", 1.0, vec!["EQ", "EQ", "DEL"]),
        ("AA", "AAA", 1.0, vec!["EQ", "EQ", "INS"]),
    ];

    for (a, b, expect_cost, expect_actions) in test_cases {
        let steps = edit_distance(syms(a), syms(b)).unwrap();
        let expect: Vec<String> = expect_actions.iter().map(|s| s.to_string()).collect();
        assert_eq!(expect, actions(&steps));
        assert_eq!(expect_cost, total_f64(&steps));
    }
}

#[test]
fn test_identity_single_substitution() {
    let system = build(vec!["<default> = [0f1]"]);
    let calculator = PhonemeCostCalculator::new(&system);
    let steps = calculator
        .diff_steps(&vec![Symbol::new("A")], &vec![Symbol::new("B")])
        .unwrap();
    assert_eq!(actions(&steps), vec!["SUB".to_string()]);
    assert_eq!(cost_f64(&steps[0].cost), 1.0);
    assert_eq!(total_f64(&steps), 1.0);
}

#[test]
fn test_identity_eq_then_del() {
    let system = build(vec!["<default> = [0f1]"]);
    let calculator = PhonemeCostCalculator::new(&system);
    let steps = calculator
        .diff_steps(
            &vec![Symbol::new("A"), Symbol::new("B")],
            &vec![Symbol::new("A")],
        )
        .unwrap();
    assert_eq!(actions(&steps), vec!["EQ".to_string(), "DEL".to_string()]);
    assert_eq!(cost_f64(&steps[0].cost), 0.0);
    assert_eq!(cost_f64(&steps[1].cost), 1.0);
}

#[test]
fn test_empty_empty_both_policies() {
    let system = build(vec!["<default> = [0f1]"]);
    let identity = PhonemeCostCalculator::new(&system);
    let steps = identity.diff_steps(&vec![], &vec![]).unwrap();
    assert_eq!(steps.len(), 0);
    assert_eq!(total_f64(&steps), 0.0);

    let featural = FeatureCostCalculator::new(&system);
    let steps = featural.diff_steps(&vec![], &vec![]).unwrap();
    assert_eq!(steps.len(), 0);
    assert_eq!(total_f64(&steps), 0.0);
}

#[test]
fn test_self_diff_all_eq_both_policies() {
    let system = build(vec!["<default> = [0f1, 0f2]", "p = [+f1]", "q = [-f1, +f2]"]);
    let tokens = vec![Symbol::new("p"), Symbol::new("q"), Symbol::new("p")];

    let identity = PhonemeCostCalculator::new(&system);
    let steps = identity.diff_steps(&tokens, &tokens).unwrap();
    assert_eq!(actions(&steps), vec!["EQ".to_string(); 3]);
    assert_eq!(total_f64(&steps), 0.0);

    let featural = FeatureCostCalculator::new(&system);
    let steps = featural.diff_steps(&tokens, &tokens).unwrap();
    assert_eq!(actions(&steps), vec!["EQ".to_string(); 3]);
    assert_eq!(total_f64(&steps), 0.0);
}

#[test]
fn test_distance_commutes_both_policies() {
    let system = build(vec!["<default> = [0f1, 0f2]", "p = [+f1]", "q = [-f1, +f2]", "r = [+f2]"]);
    let a = vec![Symbol::new("p"), Symbol::new("q"), Symbol::new("r")];
    let b = vec![Symbol::new("q"), Symbol::new("r")];

    let identity = PhonemeCostCalculator::new(&system);
    let ab = identity.diff_steps(&a, &b).unwrap();
    let ba = identity.diff_steps(&b, &a).unwrap();
    assert_eq!(total_f64(&ab), total_f64(&ba));

    let featural = FeatureCostCalculator::new(&system);
    let ab = featural.diff_steps(&a, &b).unwrap();
    let ba = featural.diff_steps(&b, &a).unwrap();
    assert_eq!(total_f64(&ab), total_f64(&ba));
}

#[test]
fn test_feature_substitution_cost() {
    let system = build(vec!["<default> = [0f1, 0f2]", "p = [+f1, -f2]", "q = [-f1, -f2]"]);
    let featural = FeatureCostCalculator::new(&system);
    let steps = featural
        .diff_steps(&vec![Symbol::new("p")], &vec![Symbol::new("q")])
        .unwrap();
    assert_eq!(actions(&steps), vec!["SUB".to_string()]);
    // f1 differs by |1 - (-1)| / 2 = 1.0; f2 agrees.
    assert_eq!(cost_f64(&steps[0].cost), 1.0);
}

#[test]
fn test_feature_deletion_cost() {
    let system = build(vec!["<default> = [0f1, 0f2, 0f3]", "p = [+f1, +-f2]"]);
    let featural = FeatureCostCalculator::new(&system);
    let steps = featural
        .diff_steps(&vec![Symbol::new("p")], &vec![])
        .unwrap();
    assert_eq!(actions(&steps), vec!["DEL".to_string()]);
    // +f1 and +-f2 each cost 1.0 against an absent side; 0f3 costs 0.5.
    assert_eq!(cost_f64(&steps[0].cost), 2.5);
}

#[test]
fn test_zero_cost_markers_align_free() {
    let system = build(vec!["<default> = [0f1]", "p = [+f1]"]);
    let featural = FeatureCostCalculator::new(&system);
    let steps = featural
        .diff_steps(
            &vec![Symbol::new("p")],
            &vec![Symbol::new("p"), Symbol::new("<spn>")],
        )
        .unwrap();
    assert_eq!(actions(&steps), vec!["EQ".to_string(), "INS".to_string()]);
    assert_eq!(total_f64(&steps), 0.0);

    let identity = PhonemeCostCalculator::new(&system);
    let steps = identity
        .diff_steps(
            &vec![Symbol::new("<sil>"), Symbol::new("p")],
            &vec![Symbol::new("p")],
        )
        .unwrap();
    assert_eq!(total_f64(&steps), 0.0);
}

#[test]
fn test_zero_cost_self_diff_prefers_del_by_tie_order() {
    // Aligning a zero-cost marker with itself costs nothing either way, and
    // the tie order DEL, INS, EQ, SUB then lets DEL win over EQ: the
    // all-steps-are-EQ law holds only for sequences without such markers.
    let system = build(vec!["<default> = [0f1]"]);
    let identity = PhonemeCostCalculator::new(&system);
    let steps = identity
        .diff_steps(&vec![Symbol::new("<spn>")], &vec![Symbol::new("<spn>")])
        .unwrap();
    assert_eq!(actions(&steps), vec!["INS".to_string(), "DEL".to_string()]);
    assert_eq!(total_f64(&steps), 0.0);
}

#[test]
fn test_feature_unknown_symbol_fails() {
    let system = build(vec!["<default> = [0f1]", "p = [+f1]"]);
    let featural = FeatureCostCalculator::new(&system);
    let result = featural.diff_steps(&vec![Symbol::new("p")], &vec![Symbol::new("zz")]);
    match result {
        Err(PhlDistanceError::PhonemeNotFoundError(text)) => assert_eq!(text, "zz"),
        other => panic!("expected PhonemeNotFoundError, got {:?}", other),
    }
}
