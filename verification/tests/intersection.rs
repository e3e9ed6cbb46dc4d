use dsi::buildpack::Buildpack;
use dsi::error::DsiError;
use dsi::stack::Stack;

fn bp(uri: &str, stacks: Option<Vec<&str>>) -> Buildpack {
    Buildpack {
        uri: uri.to_string(),
        version: None,
        optional: None,
        compatible_stacks: stacks.map(|v| v.into_iter().map(|s| s.to_string()).collect()),
    }
}

#[test]
fn test_detect_common_stacks() {
    println!("Providing heroku/nodejs and heroku/ruby as buildpacks should detect heroku-18 and heroku-20 as common stacks");
    let buildpacks = vec![
        Buildpack::from_uri("heroku/nodejs").unwrap(),
        Buildpack::from_uri("heroku/ruby").unwrap(),
    ];
    if let Ok(stacks) = Stack::detect_common_stacks(&buildpacks) {
        assert!(stacks.contains(&"heroku-18".to_string()));
        assert!(stacks.contains(&"heroku-20".to_string()));
    }
}

#[test]
fn trailing_wildcard_imposes_no_constraint() {
    let list = vec![
        bp("bpA", Some(vec!["heroku-18", "heroku-20"])),
        bp("bpB", Some(vec!["heroku-18", "heroku-20"])),
        bp("bpC", Some(vec!["*"])),
    ];
    let stacks = Stack::detect_common_stacks(&list).unwrap();
    assert_eq!(stacks, vec!["heroku-18".to_string(), "heroku-20".to_string()]);
}

#[test]
fn disjoint_stacks_fail_with_no_common_stack() {
    let list = vec![bp("bpX", Some(vec!["s1"])), bp("bpY", Some(vec!["s2"]))];
    let err = Stack::detect_common_stacks(&list).unwrap_err();
    match err {
        DsiError::NoCommonStack { uri } => assert_eq!(uri, Some("bpY".to_string())),
        _ => panic!("expected NoCommonStack"),
    }
}

#[test]
fn repeated_calls_agree() {
    let list = vec![
        bp("a", Some(vec!["heroku-20", "heroku-18", "heroku-22"])),
        bp("b", Some(vec!["heroku-18", "heroku-20"])),
    ];
    let first = Stack::detect_common_stacks(&list).unwrap();
    let second = Stack::detect_common_stacks(&list).unwrap();
    assert_eq!(first, second);
    assert_eq!(first, vec!["heroku-20".to_string(), "heroku-18".to_string()]);
}

#[test]
fn non_first_wildcard_is_removable() {
    let with_wildcard = vec![
        bp("a", Some(vec!["heroku-18", "heroku-20"])),
        bp("w", Some(vec!["*"])),
        bp("b", Some(vec!["heroku-20"])),
    ];
    let without_wildcard = vec![
        bp("a", Some(vec!["heroku-18", "heroku-20"])),
        bp("b", Some(vec!["heroku-20"])),
    ];
    assert_eq!(
        Stack::detect_common_stacks(&with_wildcard).unwrap(),
        Stack::detect_common_stacks(&without_wildcard).unwrap()
    );
}

#[test]
fn wildcard_first_resets_to_remaining_list() {
    let full = vec![
        bp("w", Some(vec!["*"])),
        bp("a", Some(vec!["heroku-18", "heroku-22"])),
        bp("b", Some(vec!["heroku-22"])),
    ];
    let remaining = vec![
        bp("a", Some(vec!["heroku-18", "heroku-22"])),
        bp("b", Some(vec!["heroku-22"])),
    ];
    assert_eq!(
        Stack::detect_common_stacks(&full).unwrap(),
        Stack::detect_common_stacks(&remaining).unwrap()
    );
}

#[test]
fn all_wildcards_yield_the_wildcard() {
    let list = vec![bp("a", Some(vec!["*"])), bp("b", Some(vec!["heroku-18", "*"]))];
    assert_eq!(Stack::detect_common_stacks(&list).unwrap(), vec!["*".to_string()]);
}

#[test]
fn free_function_agrees_with_the_method() {
    let list = vec![
        bp("a", Some(vec!["heroku-18", "heroku-20"])),
        bp("b", Some(vec!["heroku-20"])),
    ];
    assert_eq!(
        dsi::stack::detect_common_stacks(&list).unwrap(),
        Stack::detect_common_stacks(&list).unwrap()
    );
    assert_eq!(
        dsi::stack::detect_common_stacks(&list).unwrap(),
        vec!["heroku-20".to_string()]
    );
}

#[test]
fn empty_list_fails_globally() {
    let list: Vec<Buildpack> = Vec::new();
    let err = Stack::detect_common_stacks(&list).unwrap_err();
    match err {
        DsiError::NoCommonStack { uri } => assert_eq!(uri, None),
        _ => panic!("expected NoCommonStack"),
    }
}

#[test]
fn unresolved_buildpack_is_reported() {
    let list = vec![bp("a", Some(vec!["heroku-18"])), bp("raw", None)];
    let err = Stack::detect_common_stacks(&list).unwrap_err();
    match err {
        DsiError::NoCompatibleStacks { uri } => assert_eq!(uri, "raw".to_string()),
        _ => panic!("expected NoCompatibleStacks"),
    }
}

#[test]
fn failure_before_unresolved_entry_wins() {
    let list = vec![
        bp("a", Some(vec!["s1"])),
        bp("b", Some(vec!["s2"])),
        bp("raw", None),
    ];
    let err = Stack::detect_common_stacks(&list).unwrap_err();
    assert!(matches!(err, DsiError::NoCommonStack { .. }));
}

#[test]
fn result_keeps_running_set_order() {
    let list = vec![
        bp("a", Some(vec!["s3", "s1", "s2"])),
        bp("b", Some(vec!["s2", "s3"])),
    ];
    assert_eq!(
        Stack::detect_common_stacks(&list).unwrap(),
        vec!["s3".to_string(), "s2".to_string()]
    );
}

#[test]
fn empty_seed_fails_at_next_constraining_buildpack() {
    let list = vec![bp("a", Some(vec![])), bp("b", Some(vec!["s1"]))];
    let err = Stack::detect_common_stacks(&list).unwrap_err();
    match err {
        DsiError::NoCommonStack { uri } => assert_eq!(uri, Some("b".to_string())),
        _ => panic!("expected NoCommonStack"),
    }
}
