use dsi::builder::{Builder, Group, Order};
use dsi::buildpack::Buildpack;
use dsi::droid::Droid;
use dsi::stack::Stack;

fn sample_builder() -> Builder {
    let mut bp = Buildpack::from_uri("heroku/nodejs").unwrap();
    bp.version = Some("1.0.0".to_string());
    let droid = Droid {
        app_id: 7,
        repo: "github.com/rocket".to_string(),
        branch: "main".to_string(),
        buildpacks: vec![bp],
        env: vec![],
        stack: Stack {
            id: "heroku-18".to_string(),
            build_image: "heroku/buildpacks:20".to_string(),
            run_image: "heroku/pack:20".to_string(),
        },
    };
    droid.create_builder().unwrap()
}

#[test]
fn document_has_the_expected_text() {
    let doc = sample_builder().to_document();
    let expected = "description = \"Created by Droid\"\n\
                    [stack]\n\
                    id = \"heroku-18\"\n\
                    build-image = \"heroku/buildpacks:20\"\n\
                    run-image = \"heroku/pack:20\"\n\
                    [[buildpacks]]\n\
                    uri = \"heroku/nodejs\"\n\
                    version = \"1.0.0\"\n\
                    [[order]]\n\
                    [[order.group]]\n\
                    id = \"heroku/nodejs\"\n";
    assert_eq!(doc, expected);
}

#[test]
fn document_is_valid_toml_with_the_same_fields() {
    let builder = sample_builder();
    let doc = builder.to_document();
    let table: toml::Table = doc.parse().unwrap();
    assert_eq!(
        table["description"].as_str().unwrap(),
        "Created by Droid"
    );
    assert_eq!(table["stack"]["id"].as_str().unwrap(), "heroku-18");
    assert_eq!(
        table["stack"]["build-image"].as_str().unwrap(),
        "heroku/buildpacks:20"
    );
    assert_eq!(
        table["stack"]["run-image"].as_str().unwrap(),
        "heroku/pack:20"
    );
    let bps = table["buildpacks"].as_array().unwrap();
    assert_eq!(bps.len(), 1);
    assert_eq!(bps[0]["uri"].as_str().unwrap(), "heroku/nodejs");
    assert_eq!(bps[0]["version"].as_str().unwrap(), "1.0.0");
    let order = table["order"].as_array().unwrap();
    assert_eq!(order.len(), 1);
    let group = order[0]["group"].as_array().unwrap();
    assert_eq!(group.len(), 1);
    assert_eq!(group[0]["id"].as_str().unwrap(), "heroku/nodejs");
}

#[test]
fn special_characters_are_escaped() {
    let builder = Builder {
        description: Some("a \"quoted\" name with \\ and \n inside".to_string()),
        stack: Stack {
            id: "heroku-18".to_string(),
            build_image: "b".to_string(),
            run_image: "r".to_string(),
        },
        buildpacks: vec![],
        order: vec![],
    };
    let doc = builder.to_document();
    assert!(doc.starts_with(
        "description = \"a \\\"quoted\\\" name with \\\\ and \\n inside\"\n"
    ));
    let table: toml::Table = doc.parse().unwrap();
    assert_eq!(
        table["description"].as_str().unwrap(),
        "a \"quoted\" name with \\ and \n inside"
    );
}

#[test]
fn parsing_an_emitted_document_restores_the_builder() {
    let builder = sample_builder();
    let parsed = Builder::parse_document(&builder.to_document()).unwrap();
    assert_eq!(parsed.description, builder.description);
    assert_eq!(parsed.stack.id, builder.stack.id);
    assert_eq!(parsed.stack.build_image, builder.stack.build_image);
    assert_eq!(parsed.stack.run_image, builder.stack.run_image);
    assert_eq!(parsed.buildpacks.len(), 1);
    assert_eq!(parsed.buildpacks[0].uri, "heroku/nodejs");
    assert_eq!(parsed.buildpacks[0].version, Some("1.0.0".to_string()));
    assert_eq!(parsed.buildpacks[0].optional, None);
    // Registry state is deliberately not persisted.
    assert_eq!(parsed.buildpacks[0].compatible_stacks, None);
    assert_eq!(parsed.order.len(), 1);
    assert_eq!(parsed.order[0].group.len(), 1);
    assert_eq!(parsed.order[0].group[0].id, Some("heroku/nodejs".to_string()));
}

#[test]
fn escaped_values_survive_the_round_trip() {
    let builder = Builder {
        description: Some("tabs\tand \"quotes\" and \\slashes\\ and\nnewlines\r".to_string()),
        stack: Stack {
            id: "s".to_string(),
            build_image: "b".to_string(),
            run_image: "r".to_string(),
        },
        buildpacks: vec![],
        order: vec![],
    };
    let parsed = Builder::parse_document(&builder.to_document()).unwrap();
    assert_eq!(parsed.description, builder.description);
}

#[test]
fn a_mangled_document_is_rejected() {
    assert!(Builder::parse_document("nonsense").is_none());
    assert!(Builder::parse_document("[stack]\nid = \"s\"\n").is_none());
    assert!(Builder::parse_document("").is_none());
    let valid = sample_builder().to_document();
    let trailing = format!("{}garbage\n", valid);
    assert!(Builder::parse_document(&trailing).is_none());
    let bad_escape = "[stack]\nid = \"a\\q\"\nbuild-image = \"b\"\nrun-image = \"r\"\n";
    assert!(Builder::parse_document(bad_escape).is_none());
}

#[test]
fn optional_flags_and_empty_groups_are_kept() {
    let builder = Builder {
        description: None,
        stack: Stack {
            id: "s".to_string(),
            build_image: "b".to_string(),
            run_image: "r".to_string(),
        },
        buildpacks: vec![Buildpack {
            uri: "x".to_string(),
            version: None,
            optional: Some(false),
            compatible_stacks: Some(vec!["ignored".to_string()]),
        }],
        order: vec![
            Order { group: vec![] },
            Order {
                group: vec![Group { id: None, optional: Some(true) }],
            },
        ],
    };
    let doc = builder.to_document();
    let expected = "[stack]\n\
                    id = \"s\"\n\
                    build-image = \"b\"\n\
                    run-image = \"r\"\n\
                    [[buildpacks]]\n\
                    uri = \"x\"\n\
                    optional = false\n\
                    [[order]]\n\
                    [[order]]\n\
                    [[order.group]]\n\
                    optional = true\n";
    assert_eq!(doc, expected);
}
