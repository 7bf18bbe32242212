use indexmap::IndexMap;
use lab_core::config::{Config, ManualMode, ProjectConfig, PullPolicy};

fn default_config() -> Config {
    Config::new(4)
}

#[test]
fn config_default_values() {
    let config = default_config();
    assert_eq!(config.ci_file, ".gitlab-ci.yml");
    assert_eq!(config.workdir, ".");
    assert!(config.job_filter.is_none());
    assert!(config.stage_filter.is_none());
    assert!(config.variables.is_empty());
    assert!(!config.privileged);
    assert!(!config.no_artifacts);
    assert!(!config.no_cache);
    assert!(config.platform_overrides.is_empty());
    assert!(config.max_parallel > 0);
}

#[test]
fn project_config_apply_to_sets_defaults() {
    let mut variables = IndexMap::new();
    variables.insert("KEY".to_string(), "from_project".to_string());
    let project = ProjectConfig {
        variables,
        pull_policy: Some("always".into()),
        privileged: Some(true),
        max_parallel: Some(8),
        ..Default::default()
    };

    let mut config = default_config();
    project.apply_to(&mut config);

    assert_eq!(config.variables.get("KEY").unwrap(), "from_project");
    assert!(matches!(config.pull_policy, PullPolicy::Always));
    assert!(config.privileged);
    assert_eq!(config.max_parallel, 8);
}

#[test]
fn project_config_cli_variables_take_precedence() {
    let mut variables = IndexMap::new();
    variables.insert("KEY".to_string(), "from_project".to_string());
    let project = ProjectConfig { variables, ..Default::default() };

    let mut config = default_config();
    config.variables.insert("KEY".into(), "from_cli".into());
    project.apply_to(&mut config);

    assert_eq!(config.variables.get("KEY").unwrap(), "from_cli");
}

#[test]
fn project_config_pull_policy_variants() {
    let mut config = default_config();

    let project_always = ProjectConfig { pull_policy: Some("always".into()), ..Default::default() };
    project_always.apply_to(&mut config);
    assert!(matches!(config.pull_policy, PullPolicy::Always));

    let project_never = ProjectConfig { pull_policy: Some("never".into()), ..Default::default() };
    project_never.apply_to(&mut config);
    assert!(matches!(config.pull_policy, PullPolicy::Never));

    let project_default =
        ProjectConfig { pull_policy: Some("if-not-present".into()), ..Default::default() };
    project_default.apply_to(&mut config);
    assert!(matches!(config.pull_policy, PullPolicy::IfNotPresent));
}

#[test]
fn project_config_platforms() {
    let mut platforms = IndexMap::new();
    platforms.insert("build".to_string(), "arm64v8/node:20".to_string());
    let project = ProjectConfig { platforms, ..Default::default() };

    let mut config = default_config();
    project.apply_to(&mut config);

    assert_eq!(config.platform_overrides.get("build").unwrap(), "arm64v8/node:20");
}

#[test]
fn manual_mode_default_is_prompt() {
    let mode = ManualMode::default();
    assert!(matches!(mode, ManualMode::Prompt));
}

#[test]
fn project_privileged_false_keeps_cli_flag() {
    let project = ProjectConfig { privileged: Some(false), ..Default::default() };
    let mut config = default_config();
    config.privileged = true;
    project.apply_to(&mut config);
    assert!(config.privileged);
}
