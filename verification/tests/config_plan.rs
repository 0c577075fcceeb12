use std::path::Path;

use kukai::config::{
    has_targets, is_simple_file_name, plan_role, CommanderConfig, Config, ConfigError, EdgeConfig,
    LoadConfig, Mode, Target,
};

fn load(targets: Option<Vec<Target>>) -> LoadConfig {
    LoadConfig {
        rps: 10,
        concurrency: 2,
        reuse_connection: Some(false),
        duration_seconds: Some(1),
        targets,
        payload: Some("ping".to_string()),
    }
}

fn config(mode: &str, commander: Option<CommanderConfig>) -> Config {
    Config {
        mode: mode.to_string(),
        load: load(None),
        commander,
        edge: EdgeConfig { commander_address: None },
    }
}

#[test]
fn roles_are_planned_from_the_mode_word() {
    let commander_section = CommanderConfig { address: Some("0.0.0.0:50051".to_string()), edges: vec![] };
    assert_eq!(plan_role(&config("commander", Some(commander_section))), Ok(Mode::Commander));
    assert_eq!(plan_role(&config("edge", None)), Ok(Mode::Edge));
    assert_eq!(plan_role(&config("standalone", None)), Ok(Mode::Standalone));
}

#[test]
fn misconfigurations_are_fatal_before_any_traffic() {
    assert_eq!(
        plan_role(&config("commander", None)),
        Err(ConfigError::MissingCommanderSection)
    );
    assert_eq!(plan_role(&config("observer", None)), Err(ConfigError::UnknownMode));
    assert_eq!(plan_role(&config("", None)), Err(ConfigError::UnknownMode));
    assert_eq!(plan_role(&config("Edge", None)), Err(ConfigError::UnknownMode));
}

#[test]
fn empty_target_lists_are_detected() {
    assert!(!has_targets(&load(None)));
    assert!(!has_targets(&load(Some(vec![]))));
    assert!(has_targets(&load(Some(vec![Target {
        address: "a".to_string(),
        port: None,
        weight: Some(1),
    }]))));
}

#[test]
fn simple_file_names_have_one_component() {
    assert!(is_simple_file_name("kukai_config.toml"));
    assert!(is_simple_file_name("name with spaces"));
    assert!(is_simple_file_name("café.toml"));
    assert!(!is_simple_file_name(""));
    assert!(!is_simple_file_name("dir/file.toml"));
    assert!(!is_simple_file_name("/etc/passwd"));
    assert!(!is_simple_file_name("./file.toml"));
    assert!(!is_simple_file_name("dir/.."));
}

#[test]
fn simple_file_name_agrees_with_path_components() {
    // The contract counts path components exactly as the platform does.
    let names = [
        "kukai_config.toml",
        "a",
        ".",
        "..",
        "a/",
        "a//",
        "a/.",
        "./a",
        "/",
        "//",
        "/a",
        "/.",
        "a/b",
        "a/../b",
        ".hidden",
        "..twodots",
        "trailing.",
        "",
        "ü/é",
        "üé",
    ];
    for name in names {
        assert_eq!(
            is_simple_file_name(name),
            Path::new(name).components().count() == 1,
            "mismatch for {name:?}"
        );
    }
}
