use skirmish_script::resource_paths::{parse_value_path, root_candidates, PathStep};

#[test]
fn projected_paths_split_into_root_and_steps() {
    let p = parse_value_path("neutral.thresholds[1]").unwrap();
    assert_eq!(p.root, "neutral.thresholds");
    assert_eq!(p.steps, vec![PathStep::Index(1)]);
    let p = parse_value_path("neutral.laser.hitboxes[0].damage").unwrap();
    assert_eq!(p.root, "neutral.laser.hitboxes");
    assert_eq!(p.steps, vec![PathStep::Index(0), PathStep::Field("damage".into())]);
    let p = parse_value_path("attacks[0][2].hit-box_1").unwrap();
    assert_eq!(p.steps, vec![PathStep::Index(0), PathStep::Index(2), PathStep::Field("hit-box_1".into())]);
    let p = parse_value_path("neutral.laser").unwrap();
    assert_eq!(p.root, "neutral.laser");
    assert!(p.steps.is_empty());
}

#[test]
fn malformed_projected_paths_are_refused() {
    for path in ["", "a..b", ".a", "a.", "a[", "a[x]", "[0]", "a[0]b", "a[0].", "a[0]..b", "a b", "a[0].b c"] {
        assert!(parse_value_path(path).is_none(), "{path} must be refused");
    }
    let long = "a".repeat(257);
    assert!(parse_value_path(&long).is_none());
    assert!(parse_value_path(&"a".repeat(256)).is_some());
}

#[test]
fn dotted_roots_are_tried_longest_first() {
    let candidates = root_candidates("neutral.laser.hitboxes");
    let expected: Vec<(String, Vec<String>)> = vec![
        ("neutral.laser.hitboxes".into(), vec![]),
        ("neutral.laser".into(), vec!["hitboxes".into()]),
        ("neutral".into(), vec!["laser".into(), "hitboxes".into()]),
    ];
    assert_eq!(candidates, expected);
    assert_eq!(root_candidates("neutral"), vec![("neutral".to_string(), vec![])]);
}
