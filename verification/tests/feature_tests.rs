use phonologic::features::apply_features;
use phonologic::parser::parse_features;

#[test]
fn test_merge_features() {
    let test_cases = vec![
        (
            "[0feat1, 0feat2, 0feat3]",
            "[+feat1, -feat2]",
            "[+feat1, -feat2, 0feat3]",
        ),
        (
            "[?feat1, ?feat2, 0feat3]",
            "[+feat1, -feat2]",
            "[+feat1, -feat2, 0feat3]",
        ),
    ];
    for (default, update, expected) in test_cases {
        let default = parse_features(default).unwrap();
        let update = parse_features(update).unwrap();
        let expected = parse_features(expected).unwrap();
        let merged = apply_features(&default, &update);
        assert_eq!(merged, expected)
    }
}

#[test]
fn test_merge_unspecified_never_overrides() {
    let base = parse_features("[+f1, -f2]").unwrap();
    let update = parse_features("[?f1, +f2]").unwrap();
    let merged = apply_features(&base, &update);
    let expected = parse_features("[+f1, +f2]").unwrap();
    assert_eq!(merged, expected);
}

#[test]
fn test_merge_later_entries_win() {
    let base = parse_features("[0f1]").unwrap();
    let update = parse_features("[+f1, -f1]").unwrap();
    let merged = apply_features(&base, &update);
    let expected = parse_features("[-f1]").unwrap();
    assert_eq!(merged, expected);
}

#[test]
fn test_merge_foreign_names_are_ignored() {
    let base = parse_features("[0f1]").unwrap();
    let update = parse_features("[+f9]").unwrap();
    let merged = apply_features(&base, &update);
    assert_eq!(merged, base);
}
