use lab_core::model::rules::{check_files_exist, check_git_changes, evaluate_if_expression};
use lab_core::runner::executor::ExecutorCtx;
use lab_core::model::variables::{VariableValue, Variables};

fn vars(pairs: &[(&str, &str)]) -> Variables {
    let mut v = Variables::new();
    for (k, val) in pairs {
        v.insert(k.to_string(), VariableValue::Simple(val.to_string()));
    }
    v
}

#[test]
fn test_equality() {
    let v = vars(&[("CI_BRANCH", "main")]);
    assert!(evaluate_if_expression("$CI_BRANCH == \"main\"", &v));
    assert!(!evaluate_if_expression("$CI_BRANCH == \"dev\"", &v));
}

#[test]
fn test_inequality() {
    let v = vars(&[("CI_BRANCH", "main")]);
    assert!(evaluate_if_expression("$CI_BRANCH != \"dev\"", &v));
    assert!(!evaluate_if_expression("$CI_BRANCH != \"main\"", &v));
}

#[test]
fn test_bare_variable_truthy() {
    let v = vars(&[("CI_BRANCH", "main")]);
    assert!(evaluate_if_expression("$CI_BRANCH", &v));
    let v = vars(&[("CI_BRANCH", "")]);
    assert!(!evaluate_if_expression("$CI_BRANCH", &v));
    let v = vars(&[]);
    assert!(!evaluate_if_expression("$CI_BRANCH", &v));
}

#[test]
fn test_logical_and_or() {
    let v = vars(&[("A", "1"), ("B", "2")]);
    assert!(evaluate_if_expression("$A && $B", &v));
    assert!(evaluate_if_expression("$A || $MISSING", &v));
    assert!(!evaluate_if_expression("$MISSING && $A", &v));
}

#[test]
fn test_null_comparison() {
    let v = vars(&[("A", "1")]);
    assert!(evaluate_if_expression("$A != null", &v));
    assert!(!evaluate_if_expression("$A == null", &v));
    assert!(evaluate_if_expression("$MISSING == null", &v));
}

#[test]
fn test_regex_match() {
    let v = vars(&[("CI_BRANCH", "feature/login")]);
    assert!(evaluate_if_expression("$CI_BRANCH =~ /^feature\\//", &v));
    assert!(!evaluate_if_expression("$CI_BRANCH =~ /^main$/", &v));
}

#[test]
fn test_regex_not_match() {
    let v = vars(&[("CI_BRANCH", "main")]);
    assert!(evaluate_if_expression("$CI_BRANCH !~ /^feature/", &v));
}

#[test]
fn test_parentheses() {
    let v = vars(&[("A", "1")]);
    assert!(evaluate_if_expression("($A == \"1\") && ($A != \"2\")", &v));
}

#[test]
fn test_complex_expression() {
    let v = vars(&[
        ("CI_PIPELINE_SOURCE", "merge_request_event"),
        ("CI_MERGE_REQUEST_TARGET_BRANCH_NAME", "main"),
    ]);
    assert!(evaluate_if_expression(
        "$CI_PIPELINE_SOURCE == \"merge_request_event\" && $CI_MERGE_REQUEST_TARGET_BRANCH_NAME == \"main\"",
        &v,
    ));
}

#[test]
fn braced_variable_and_negation() {
    let v = vars(&[("A", "x")]);
    assert!(evaluate_if_expression("${A} == \"x\"", &v));
    assert!(!evaluate_if_expression("!($A == \"x\")", &v));
}

#[test]
fn changes_and_exists_conditions() {
    let changed = vec!["src/a/b.rs".to_string(), "README.md".to_string()];
    assert!(check_git_changes(&vec!["src/**/*.rs".to_string()], Some(&changed)));
    assert!(!check_git_changes(&vec!["docs/*".to_string()], Some(&changed)));
    assert!(check_git_changes(&vec!["docs/*".to_string()], None));
    assert!(!check_git_changes(&vec!["docs/*".to_string()], Some(&vec![])));
    assert!(!check_git_changes(&vec!["[".to_string()], Some(&vec!["[".to_string()])));
    let on_disk = vec!["Dockerfile".to_string()];
    assert!(check_files_exist(&vec!["Makefile".to_string(), "Dockerfile".to_string()], &on_disk));
    assert!(!check_files_exist(&vec!["Makefile".to_string()], &on_disk));
}

#[test]
fn cancelling_is_seen_by_every_holder() {
    let ctx = ExecutorCtx::new();
    assert!(!ctx.is_cancelled());
    let other = ctx.clone();
    other.cancel();
    assert!(ctx.is_cancelled());
    assert!(other.is_cancelled());
}
