use lab_core::model::predefined::{predefined_variables, LocalContext};
use lab_core::model::variables::{expand_variables, merge_variables, VariableValue, Variables};

fn vars(pairs: &[(&str, &str)]) -> Variables {
    let mut v = Variables::new();
    for (k, val) in pairs {
        v.insert(k.to_string(), VariableValue::Simple(val.to_string()));
    }
    v
}

#[test]
fn test_simple_expansion() {
    let v = vars(&[("NAME", "world")]);
    assert_eq!(expand_variables("hello $NAME", &v), "hello world");
    assert_eq!(expand_variables("hello ${NAME}", &v), "hello world");
}

#[test]
fn test_escaped_dollar() {
    let v = vars(&[]);
    assert_eq!(expand_variables("$$HOME", &v), "$HOME");
}

#[test]
fn test_recursive_expansion() {
    let v = vars(&[("A", "$B"), ("B", "resolved")]);
    assert_eq!(expand_variables("$A", &v), "resolved");
}

#[test]
fn test_unresolved_passthrough() {
    let v = vars(&[]);
    assert_eq!(expand_variables("$UNKNOWN", &v), "$UNKNOWN");
}

#[test]
fn test_nested_braces() {
    let v = vars(&[("BUILD_ROOT", "/builds"), ("OUT_PATH", "${BUILD_ROOT}/out")]);
    assert_eq!(expand_variables("${OUT_PATH}/pkg", &v), "/builds/out/pkg");
}

#[test]
fn test_merge_precedence() {
    let global = vars(&[("KEY", "global"), ("ONLY_GLOBAL", "yes")]);
    let job = vars(&[("KEY", "job")]);
    let merged = merge_variables(&[&global, &job]);
    assert_eq!(merged.get("KEY").unwrap().value(), "job");
    assert_eq!(merged.get("ONLY_GLOBAL").unwrap().value(), "yes");
}

#[test]
fn expansion_without_dollar_is_identity() {
    let v = vars(&[("A", "1")]);
    assert_eq!(expand_variables("plain text", &v), "plain text");
}

fn ctx(branch: &str) -> LocalContext {
    LocalContext {
        project_dir: "/work/app".into(),
        project_name: "app".into(),
        commit_sha: Some("0123456789abcdef\n".into()),
        commit_branch: Some(branch.into()),
        commit_message: Some("msg\n".into()),
        before_sha: None,
    }
}

#[test]
fn predefined_on_feature_branch() {
    let v = predefined_variables(&ctx("feature"), "build", "test");
    assert_eq!(v.get("CI_COMMIT_SHORT_SHA").unwrap().value(), "01234567");
    assert_eq!(v.get("CI_COMMIT_SHA").unwrap().value(), "0123456789abcdef");
    assert_eq!(v.get("CI_COMMIT_BRANCH").unwrap().value(), "feature");
    assert_eq!(v.get("CI_PIPELINE_SOURCE").unwrap().value(), "local");
    assert_eq!(v.get("CI_DEFAULT_BRANCH").unwrap().value(), "main");
    assert_eq!(v.get("CI_PROJECT_PATH").unwrap().value(), "local/app");
    assert_eq!(v.get("CI_COMMIT_BEFORE_SHA").unwrap().value(), "0000000000000000000000000000000000000000");
    assert!(v.get("CI_MERGE_REQUEST_TARGET_BRANCH_NAME").is_none());
    assert_eq!(v.len(), 22);
}

#[test]
fn predefined_on_default_branch() {
    let v = predefined_variables(&ctx("main"), "build", "test");
    assert_eq!(v.get("CI_PIPELINE_SOURCE").unwrap().value(), "local");
    assert!(v.get("CI_MERGE_REQUEST_SOURCE_BRANCH_NAME").is_none());
    assert_eq!(v.len(), 22);
    assert_eq!(v.get("CI_JOB_NAME").unwrap().value(), "build");
    assert_eq!(v.get("CI_JOB_STAGE").unwrap().value(), "test");
}

#[test]
fn test_variable_expansion() {
    let mut vars = Variables::new();
    vars.insert("NAME".into(), VariableValue::Simple("world".into()));
    vars.insert("GREETING".into(), VariableValue::Simple("hello $NAME".into()));
    assert_eq!(expand_variables("$NAME", &vars), "world");
    assert_eq!(expand_variables("${NAME}", &vars), "world");
    assert_eq!(expand_variables("$GREETING", &vars), "hello world");
    assert_eq!(expand_variables("$$LITERAL", &vars), "$LITERAL");
    assert_eq!(expand_variables("$MISSING", &vars), "$MISSING");
}

#[test]
fn test_variable_expansion_in_variables() {
    let mut vars = Variables::new();
    vars.insert("BASE".into(), VariableValue::Simple("/opt".into()));
    vars.insert("BIN".into(), VariableValue::Simple("$BASE/bin".into()));
    vars.insert("APP".into(), VariableValue::Simple("${BIN}/app".into()));
    assert_eq!(expand_variables("$APP", &vars), "/opt/bin/app");
}

#[test]
fn test_variable_expansion_no_infinite_loop() {
    let mut vars = Variables::new();
    vars.insert("A".into(), VariableValue::Simple("$B".into()));
    vars.insert("B".into(), VariableValue::Simple("$A".into()));
    let result = expand_variables("$A", &vars);
    assert!(!result.is_empty());
}

#[test]
fn test_variable_dollar_dollar_escape() {
    let mut vars = Variables::new();
    vars.insert("BASE".into(), VariableValue::Simple("hello".into()));
    assert_eq!(expand_variables("$$BASE", &vars), "$BASE");
    assert_eq!(expand_variables("cost: $$100", &vars), "cost: $100");
}
