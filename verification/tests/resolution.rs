use dsi::buildpack::Buildpack;
use dsi::error::DsiError;
use dsi::registry::RegistryRecord;

fn record(versions: Vec<&str>, stacks: Option<Vec<&str>>) -> RegistryRecord {
    RegistryRecord::new(
        versions.into_iter().map(|s| s.to_string()).collect(),
        stacks.map(|v| v.into_iter().map(|s| s.to_string()).collect()),
    )
}

#[test]
fn from_uri_starts_unresolved() {
    let bp = Buildpack::from_uri("heroku/nodejs").unwrap();
    assert_eq!(bp.uri, "heroku/nodejs");
    assert_eq!(bp.version, None);
    assert_eq!(bp.optional, None);
    assert!(bp.compatible_stacks.is_none());
}

#[test]
fn id_strips_urn_prefix_and_version_suffix() {
    let bp = Buildpack::from_uri("urn:cnb:registry:heroku/nodejs@1.2.3").unwrap();
    assert_eq!(bp.id(), "heroku/nodejs");
    let plain = Buildpack::from_uri("heroku/ruby").unwrap();
    assert_eq!(plain.id(), "heroku/ruby");
    let suffixed = Buildpack::from_uri("paketo-buildpacks/java@7.9.0").unwrap();
    assert_eq!(suffixed.id(), "paketo-buildpacks/java");
}

#[test]
fn requested_version_prefers_the_field() {
    let mut bp = Buildpack::from_uri("heroku/nodejs@2.0.0").unwrap();
    assert_eq!(bp.requested_version(), Some("2.0.0".to_string()));
    bp.version = Some("1.0.0".to_string());
    assert_eq!(bp.requested_version(), Some("1.0.0".to_string()));
    let bare = Buildpack::from_uri("heroku/nodejs").unwrap();
    assert_eq!(bare.requested_version(), None);
}

#[test]
fn validate_keeps_a_listed_version() {
    let mut bp = Buildpack::from_uri("heroku/nodejs").unwrap();
    bp.version = Some("1.1.0".to_string());
    let rec = record(vec!["2.0.0", "1.1.0"], Some(vec!["heroku-18"]));
    bp.validate(&rec).unwrap();
    assert_eq!(bp.version, Some("1.1.0".to_string()));
    assert_eq!(bp.compatible_stacks, Some(vec!["heroku-18".to_string()]));
}

#[test]
fn absent_version_falls_back_without_error() {
    let mut bp = Buildpack::from_uri("heroku/nodejs@9.9.9").unwrap();
    let rec = record(vec!["2.0.0", "1.1.0"], Some(vec!["heroku-18", "heroku-20"]));
    bp.validate(&rec).unwrap();
    assert_eq!(bp.version, Some("2.0.0".to_string()));
    assert_eq!(
        bp.compatible_stacks,
        Some(vec!["heroku-18".to_string(), "heroku-20".to_string()])
    );
}

#[test]
fn no_requested_version_takes_the_latest() {
    let mut bp = Buildpack::from_uri("heroku/ruby").unwrap();
    let rec = record(vec!["3.1.0", "3.0.0"], Some(vec!["*"]));
    bp.validate(&rec).unwrap();
    assert_eq!(bp.version, Some("3.1.0".to_string()));
    assert_eq!(bp.compatible_stacks, Some(vec!["*".to_string()]));
}

#[test]
fn empty_version_list_is_an_error_and_leaves_the_buildpack_alone() {
    let mut bp = Buildpack::from_uri("heroku/ruby@1.0.0").unwrap();
    let rec = record(vec![], Some(vec!["heroku-18"]));
    let err = bp.validate(&rec).unwrap_err();
    match err {
        DsiError::NoVersions { uri } => assert_eq!(uri, "heroku/ruby@1.0.0"),
        _ => panic!("expected NoVersions"),
    }
    assert_eq!(bp.version, None);
    assert!(bp.compatible_stacks.is_none());
}

#[test]
fn missing_stack_list_is_an_error_after_the_version_was_set() {
    let mut bp = Buildpack::from_uri("heroku/ruby").unwrap();
    let rec = record(vec!["3.1.0"], None);
    let err = bp.validate(&rec).unwrap_err();
    match err {
        DsiError::NoCompatibleStacks { uri } => assert_eq!(uri, "heroku/ruby"),
        _ => panic!("expected NoCompatibleStacks"),
    }
    assert_eq!(bp.version, Some("3.1.0".to_string()));
    assert!(bp.compatible_stacks.is_none());
}

#[test]
fn empty_stack_list_is_accepted_verbatim() {
    let mut bp = Buildpack::from_uri("heroku/ruby").unwrap();
    let rec = record(vec!["3.1.0"], Some(vec![]));
    bp.validate(&rec).unwrap();
    assert_eq!(bp.compatible_stacks, Some(Vec::<String>::new()));
}

#[test]
fn error_messages_name_the_buildpack() {
    let global = DsiError::NoCommonStack { uri: None };
    assert_eq!(global.message(), "No common stacks found");
    let local = DsiError::NoCommonStack { uri: Some("heroku/ruby".to_string()) };
    assert_eq!(local.message(), "No common stacks found for buildpack heroku/ruby");
    let unresolved = DsiError::NoCompatibleStacks { uri: "x".to_string() };
    assert_eq!(unresolved.message(), "Buildpack x does not have any compatible stacks");
}
