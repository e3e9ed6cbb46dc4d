use dsi::builder::Builder;
use dsi::buildpack::Buildpack;
use dsi::droid::Droid;
use dsi::registry::RegistryRecord;
use dsi::stack::Stack;

fn sample_stack() -> Stack {
    Stack {
        id: "heroku-18".to_string(),
        build_image: "heroku/buildpacks:20".to_string(),
        run_image: "heroku/pack:20".to_string(),
    }
}

fn sample_droid() -> Droid {
    let mut bp1 = Buildpack::from_uri("urn:cnb:registry:heroku/nodejs@1.0.0").unwrap();
    bp1.optional = Some(true);
    let bp2 = Buildpack::from_uri("heroku/ruby").unwrap();
    Droid {
        app_id: 7,
        repo: "github.com/rocket".to_string(),
        branch: "main".to_string(),
        buildpacks: vec![bp1, bp2],
        env: vec!["FOO=bar".to_string()],
        stack: sample_stack(),
    }
}

#[test]
fn create_builder_makes_one_group_per_buildpack_in_order() {
    let droid = sample_droid();
    let builder = droid.create_builder().unwrap();
    assert_eq!(builder.description, Some("Created by Droid".to_string()));
    assert_eq!(builder.stack.id, "heroku-18");
    assert_eq!(builder.buildpacks.len(), 2);
    assert_eq!(builder.order.len(), 2);
    assert_eq!(builder.order[0].group.len(), 1);
    assert_eq!(builder.order[0].group[0].id, Some("heroku/nodejs".to_string()));
    assert_eq!(builder.order[0].group[0].optional, Some(true));
    assert_eq!(builder.order[1].group.len(), 1);
    assert_eq!(builder.order[1].group[0].id, Some("heroku/ruby".to_string()));
    assert_eq!(builder.order[1].group[0].optional, None);
}

#[test]
fn droid_delegates_stack_detection() {
    let mut droid = sample_droid();
    droid.buildpacks[0].compatible_stacks =
        Some(vec!["heroku-18".to_string(), "heroku-20".to_string()]);
    droid.buildpacks[1].compatible_stacks =
        Some(vec!["heroku-20".to_string(), "heroku-18".to_string()]);
    let stacks = droid.detect_common_stacks().unwrap();
    assert_eq!(stacks, vec!["heroku-18".to_string(), "heroku-20".to_string()]);
}

#[test]
fn resolved_registry_stacks_flow_end_to_end() {
    let mut droid = Droid {
        app_id: 1,
        repo: "github.com/rocket".to_string(),
        branch: "main".to_string(),
        buildpacks: vec![
            Buildpack::from_uri("heroku/nodejs").unwrap(),
            Buildpack::from_uri("heroku/ruby").unwrap(),
        ],
        env: vec![],
        stack: sample_stack(),
    };
    let nodejs = RegistryRecord::new(
        vec!["1.0.0".to_string()],
        Some(vec!["heroku-18".to_string(), "heroku-20".to_string()]),
    );
    let ruby = RegistryRecord::new(
        vec!["3.1.0".to_string()],
        Some(vec!["heroku-18".to_string(), "heroku-20".to_string()]),
    );
    droid.buildpacks[0].validate(&nodejs).unwrap();
    droid.buildpacks[1].validate(&ruby).unwrap();
    let stacks = droid.detect_common_stacks().unwrap();
    assert_eq!(stacks, vec!["heroku-18".to_string(), "heroku-20".to_string()]);
}

#[test]
fn builder_tool_command_line() {
    let droid = sample_droid();
    let builder = droid.create_builder().unwrap();
    assert_eq!(Builder::builder_tool(), "pack");
    assert_eq!(builder.image_name(7), "7:heroku-18");
    let args = builder.create_args(7);
    assert_eq!(
        args,
        vec![
            "builder".to_string(),
            "create".to_string(),
            "7:heroku-18".to_string(),
            "--config".to_string(),
            "/app/7/builder.toml".to_string(),
        ]
    );
}

#[test]
fn per_app_paths() {
    assert_eq!(Builder::save_dir(42), "./dumps/42");
    assert_eq!(Builder::save_path(42), "./dumps/42/builder.toml");
    assert_eq!(Builder::config_path(42), "/app/42/builder.toml");
    assert_eq!(Builder::save_path(-5), "./dumps/-5/builder.toml");
    assert_eq!(
        Builder::save_dir(i64::MIN),
        format!("./dumps/{}", i64::MIN)
    );
    assert_eq!(Builder::save_dir(0), "./dumps/0");
}
