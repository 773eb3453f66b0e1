use phonologic::analysis::{compile_analysis, AnalysisAction, PhlAnalyzer};
use phonologic::errors::PhlDistanceError;
use phonologic::features::FeatureValue;
use phonologic::levenshtein::Cost;
use phonologic::parser::parse_lines;
use phonologic::systems::PhonologicalFeatureSystem;

fn analyzer(lines: Vec<&str>) -> PhlAnalyzer {
    let defs = parse_lines(&lines).unwrap();
    let system = PhonologicalFeatureSystem::build(&defs).unwrap();
    PhlAnalyzer::new(system)
}

#[test]
fn test_phoneme_diff_analysis() {
    let an = analyzer(vec!["<default> = [0f1]", "a = [0f1]", "b = [0f1]"]);
    let analysis = an.phoneme_diff("a b", "a").unwrap();
    assert_eq!(analysis.length, 2);
    assert_eq!(analysis.cost, Cost::Value(4));
    assert_eq!(analysis.steps.len(), 2);
    assert_eq!(analysis.steps[0].action, AnalysisAction::EQ);
    assert_eq!(analysis.steps[0].left, "a");
    assert_eq!(analysis.steps[0].right, "a");
    assert_eq!(analysis.steps[1].action, AnalysisAction::DEL);
    assert_eq!(analysis.steps[1].left, "b");
    assert_eq!(analysis.steps[1].right, "");
    // One unit of cost over two tokens: rate 4 quarters / 8 quarters = 0.5.
    assert_eq!(analysis.error_rate(), Some((4, 8)));
}

#[test]
fn test_feature_diff_analysis() {
    let an = analyzer(vec!["<default> = [0f1, 0f2]", "p = [+f1, -f2]", "q = [-f1, -f2]"]);
    let analysis = an.feature_diff("p", "q").unwrap();
    // One token scaled by two feature dimensions.
    assert_eq!(analysis.length, 2);
    assert_eq!(analysis.cost, Cost::Value(4));
    assert_eq!(analysis.steps.len(), 1);
    assert_eq!(analysis.steps[0].action, AnalysisAction::SUB);
    assert_eq!(analysis.error_rate(), Some((4, 8)));
}

#[test]
fn test_feature_diff_unknown_symbol() {
    let an = analyzer(vec!["<default> = [0f1]", "a = [0f1]"]);
    let result = an.feature_diff("a", "z");
    match result {
        Err(PhlDistanceError::PhonemeNotFoundError(text)) => assert_eq!(text, "z"),
        other => panic!("expected PhonemeNotFoundError, got {:?}", other),
    }
}

#[test]
fn test_empty_analysis_rate_is_zero() {
    let an = analyzer(vec!["<default> = [0f1]"]);
    let analysis = an.phoneme_diff("", "").unwrap();
    assert_eq!(analysis.steps.len(), 0);
    assert_eq!(analysis.cost, Cost::Value(0));
    assert_eq!(analysis.length, 0);
    assert_eq!(analysis.error_rate(), Some((0, 1)));
}

#[test]
fn test_feature_deltas_single_symbols() {
    let an = analyzer(vec!["<default> = [0f1, 0f2]", "p = [+f1]", "q = [-f1, +f2]"]);
    let collection = an.feature_deltas("p", "q").unwrap();
    assert_eq!(collection.deltas.len(), 2);
    assert_eq!(collection.deltas[0].name, "f1");
    assert_eq!(collection.deltas[0].left, FeatureValue::Plus);
    assert_eq!(collection.deltas[0].right, FeatureValue::Minus);
    assert_eq!(collection.deltas[1].name, "f2");
    // Every delta carries the whole analysis's cost: 1.0 + 0.5 = 1.5 units.
    assert_eq!(collection.deltas[0].cost, Cost::Value(6));
    assert_eq!(collection.deltas[1].cost, Cost::Value(6));
}

#[test]
fn test_feature_deltas_rejects_multi_symbol_input() {
    let an = analyzer(vec!["<default> = [0f1]", "a = [0f1]", "b = [0f1]"]);
    let result = an.feature_deltas("ab", "a");
    match result {
        Err(PhlDistanceError::InvalidInputError(text)) => assert_eq!(text, "ab / a"),
        other => panic!("expected InvalidInputError, got {:?}", other),
    }
}

#[test]
fn test_compile_analysis_sums_costs() {
    let an = analyzer(vec!["<default> = [0f1]", "a = [0f1]", "b = [0f1]"]);
    let calculator = phonologic::phoneme_distance::PhonemeCostCalculator::new(&an.system);
    let steps = calculator
        .diff_steps(
            &vec![
                phonologic::features::Symbol::new("a"),
                phonologic::features::Symbol::new("b"),
            ],
            &vec![phonologic::features::Symbol::new("b")],
        )
        .unwrap();
    let analysis = compile_analysis(steps, 2);
    assert_eq!(analysis.cost, Cost::Value(4));
    assert_eq!(analysis.length, 2);
    assert_eq!(analysis.steps.len(), 2);
}
