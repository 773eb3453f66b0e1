use phonologic::example::{build_system, DistinctiveFeatureSystem, Features};

fn demo_system() -> DistinctiveFeatureSystem {
    let my_phonemes = vec![
        ("p".to_string(), Features { labial: true, coronal: false, voiced: true }),
        ("b".to_string(), Features { labial: true, coronal: false, voiced: false }),
        ("t".to_string(), Features { labial: false, coronal: false, voiced: true }),
        ("d".to_string(), Features { labial: false, coronal: false, voiced: false }),
        ("k".to_string(), Features { labial: false, coronal: true, voiced: true }),
        ("g".to_string(), Features { labial: false, coronal: true, voiced: false }),
    ];
    build_system(my_phonemes)
}

#[test]
fn test_lookup_by_symbol_and_features() {
    let my_system = demo_system();

    let p_by_symbol = my_system.get_by_symbol("p").unwrap();
    let p_by_features = my_system
        .get_by_features(&Features { labial: true, coronal: false, voiced: true })
        .unwrap();
    assert_eq!(p_by_symbol.symbol, "p");
    assert_eq!(p_by_symbol, p_by_features);

    let g_by_symbol = my_system.get_by_symbol("g").unwrap();
    let g_by_features = my_system
        .get_by_features(&Features { labial: false, coronal: true, voiced: false })
        .unwrap();
    assert_eq!(g_by_symbol.symbol, "g");
    assert_eq!(g_by_symbol, g_by_features);
}

#[test]
fn test_lookup_misses() {
    let my_system = demo_system();
    assert!(my_system.get_by_symbol("zz").is_none());
    assert!(my_system
        .get_by_features(&Features { labial: true, coronal: true, voiced: true })
        .is_none());
}

#[test]
fn test_iter_keeps_order() {
    let my_system = demo_system();
    let symbols: Vec<&str> = my_system.iter().iter().map(|p| p.symbol.as_str()).collect();
    assert_eq!(symbols, vec!["p", "b", "t", "d", "k", "g"]);
}

#[test]
fn test_later_duplicate_shadows_earlier() {
    let my_system = build_system(vec![
        ("x".to_string(), Features { labial: true, coronal: false, voiced: false }),
        ("x".to_string(), Features { labial: false, coronal: true, voiced: true }),
    ]);
    let x = my_system.get_by_symbol("x").unwrap();
    assert_eq!(x.features, Features { labial: false, coronal: true, voiced: true });
}
