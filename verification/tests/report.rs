use lab_core::analyze::{Category, Finding, Severity};
use lab_core::cli::{event_variables, tag_variables};
use lab_core::error::LabError;
use lab_core::model::job::{AllowFailure, Job, When};
use lab_core::model::rules::{rule_queries, workflow_gate, ChangesConfig, Rule, RuleContext};
use lab_core::model::pipeline::{Pipeline, WorkflowConfig};
use lab_core::model::job::JobDefaults;
use indexmap::IndexMap;
use lab_core::model::variables::{VariableValue, Variables};
use lab_core::report::{count_severity, dry_run_secrets, error_suggestions, missing_variables};
use lab_core::runner::output::{count_status, JobStatus};

fn job_with(script: &[&str]) -> Job {
    Job {
        image: None,
        stage: "test".to_string(),
        script: script.iter().map(|s| s.to_string()).collect(),
        before_script: None,
        after_script: None,
        variables: Variables::new(),
        rules: None,
        needs: None,
        dependencies: None,
        artifacts: None,
        cache: None,
        services: None,
        when: When::OnSuccess,
        allow_failure: AllowFailure::default(),
        timeout: None,
        retry: None,
        parallel: None,
        extends: None,
        tags: None,
        resource_group: None,
        interruptible: None,
        inherit: None,
        coverage: None,
        start_in: None,
        trigger: None,
        manual_confirmation: None,
    }
}

fn vars(pairs: &[(&str, &str)]) -> Variables {
    let mut v = Variables::new();
    for (k, val) in pairs {
        v.insert(k.to_string(), VariableValue::Simple(val.to_string()));
    }
    v
}

fn strings(v: &[&str]) -> Vec<String> {
    v.iter().map(|s| s.to_string()).collect()
}

#[test]
fn preflight_reports_undefined_in_first_use_order() {
    let mut job = job_with(&["echo $FOO ${BAR}", "echo $FOO $CI_COMMIT_SHA $HOME_DIR"]);
    job.before_script = Some(vec!["export TOKEN=abc; echo $TOKEN".into()]);
    job.after_script = Some(vec!["echo $LOCAL $ZED".into()]);
    job.variables = vars(&[("LOCAL", "1")]);
    let globals = vars(&[("BAR", "2")]);
    assert_eq!(missing_variables(&job, &globals), strings(&["FOO", "ZED"]));
}

#[test]
fn preflight_nothing_missing() {
    let job = job_with(&["make build"]);
    assert!(missing_variables(&job, &Variables::new()).is_empty());
}

#[test]
fn dry_run_splits_loaded_and_missing_secrets() {
    let mut job = job_with(&["deploy $TOKEN $API_KEY $TOKEN", "echo $CI_JOB_ID $GLOBAL done"]);
    job.before_script = Some(vec!["login $REGISTRY_PASS".into()]);
    let globals = vars(&[("GLOBAL", "x")]);
    let secrets = vars(&[("TOKEN", "t"), ("REGISTRY_PASS", "p")]);
    let (needed, missing) = dry_run_secrets(&job, &globals, &secrets);
    assert_eq!(needed, strings(&["REGISTRY_PASS", "TOKEN"]));
    assert_eq!(missing, strings(&["API_KEY"]));
}

#[test]
fn error_tips_by_kind() {
    let tips = error_suggestions(&LabError::ContainerFailed { code: 127 });
    assert_eq!(tips.len(), 1);
    assert_eq!(tips[0].0, "command not found");
    let tips = error_suggestions(&LabError::ContainerFailed { code: 137 });
    assert_eq!(tips[0].0, "killed (OOM or timeout)");
    assert!(error_suggestions(&LabError::ContainerFailed { code: 1 }).is_empty());
    let tips = error_suggestions(&LabError::Docker("No such image: foo".into()));
    assert_eq!(tips[0].0, "image not found");
    let tips = error_suggestions(&LabError::Docker("cannot connect to daemon".into()));
    assert_eq!(tips[0].0, "docker access error");
    let tips = error_suggestions(&LabError::Other("glab exited".into()));
    assert_eq!(tips[0].1, "ensure glab is installed and authenticated: glab auth login");
    assert!(error_suggestions(&LabError::Other("boom".into())).is_empty());
    assert!(error_suggestions(&LabError::JobNotFound("x".into())).is_empty());
}

#[test]
fn severity_and_status_counts() {
    let f = |s: Severity| Finding {
        severity: s,
        category: Category::Security,
        job: None,
        rule: "r".into(),
        message: "m".into(),
        suggestion: "s".into(),
    };
    let findings = vec![f(Severity::Critical), f(Severity::Info), f(Severity::Critical)];
    assert_eq!(count_severity(&findings, Severity::Critical), 2);
    assert_eq!(count_severity(&findings, Severity::Warning), 0);
    let statuses = vec![JobStatus::Success, JobStatus::Failed, JobStatus::Success];
    assert_eq!(count_status(&statuses, JobStatus::Success), 2);
    assert_eq!(count_status(&statuses, JobStatus::AllowedFailure), 0);
}

#[test]
fn tag_sets_commit_and_ref_name() {
    let v = tag_variables("myapp/v1.2.3");
    assert_eq!(
        v,
        vec![
            ("CI_COMMIT_TAG".to_string(), "myapp/v1.2.3".to_string()),
            ("CI_PIPELINE_SOURCE".to_string(), "push".to_string()),
            ("CI_COMMIT_REF_NAME".to_string(), "v1.2.3".to_string()),
        ]
    );
    assert_eq!(tag_variables("v2")[2].1, "v2");
}

#[test]
fn events_set_source_and_extras() {
    let (v, known) = event_variables("schedule");
    assert!(known);
    assert_eq!(v.len(), 2);
    assert_eq!(v[0], ("CI_PIPELINE_SOURCE".to_string(), "schedule".to_string()));
    assert_eq!(v[1], ("CI_PIPELINE_SCHEDULE".to_string(), "true".to_string()));
    let (v, known) = event_variables("merge_request_event");
    assert!(known);
    assert_eq!(v[1], ("CI_MERGE_REQUEST_IID".to_string(), "0".to_string()));
    let (v, known) = event_variables("web");
    assert!(known);
    assert_eq!(v.len(), 1);
    let (v, known) = event_variables("nonsense");
    assert!(!known);
    assert_eq!(v.len(), 1);
}

fn rule(if_expr: &str, when: Option<When>, variables: Option<Variables>) -> Rule {
    Rule {
        if_expr: Some(if_expr.to_string()),
        changes: None,
        exists: None,
        when,
        allow_failure: None,
        variables,
    }
}

#[test]
fn workflow_rules_gate_and_set_variables() {
    let ctx = RuleContext { changes: vec![], existing: vec![] };
    let rules = vec![
        rule("$CI_COMMIT_BRANCH == \"wip\"", Some(When::Never), None),
        rule("$CI_COMMIT_BRANCH", None, Some(vars(&[("DEPLOY", "yes")]))),
    ];
    let mut v = vars(&[("CI_COMMIT_BRANCH", "main")]);
    assert!(workflow_gate(&rules, &mut v, &ctx));
    assert_eq!(v.get("DEPLOY").map(|x| x.value().to_string()), Some("yes".to_string()));

    let mut v = vars(&[("CI_COMMIT_BRANCH", "wip")]);
    assert!(!workflow_gate(&rules, &mut v, &ctx));
    assert!(v.get("DEPLOY").is_none());

    let mut v = Variables::new();
    assert!(!workflow_gate(&rules, &mut v, &ctx));
    assert!(workflow_gate(&[], &mut v, &ctx));
}

#[test]
fn rule_queries_cover_every_rule_once() {
    let mut wf_rule = rule("$CI", None, None);
    wf_rule.changes = Some(ChangesConfig::Detailed { paths: vec!["src/**".into()], compare_to: Some("main".into()) });
    let mut job_rule = rule("$CI", None, None);
    job_rule.changes = Some(ChangesConfig::Simple(vec!["docs/**".into()]));
    job_rule.exists = Some(vec!["Dockerfile".into(), "Makefile".into()]);
    let mut other_rule = rule("$CI", None, None);
    other_rule.changes = Some(ChangesConfig::Detailed { paths: vec!["x".into()], compare_to: None });
    other_rule.exists = Some(vec!["Dockerfile".into()]);
    let mut a = job_with(&["make"]);
    a.rules = Some(vec![job_rule]);
    let mut b = job_with(&["make"]);
    b.rules = Some(vec![other_rule]);
    let mut jobs = IndexMap::new();
    jobs.insert("a".to_string(), a);
    jobs.insert("b".to_string(), b);
    jobs.insert("c".to_string(), job_with(&["true"]));
    let pipeline = Pipeline {
        stages: vec!["test".into()],
        variables: Variables::new(),
        defaults: JobDefaults::default(),
        jobs,
        workflow: Some(WorkflowConfig { rules: vec![wf_rule], name: None, auto_cancel: None }),
    };
    let (refs, patterns) = rule_queries(&pipeline);
    assert_eq!(refs, strings(&["main", "HEAD~1"]));
    assert_eq!(patterns, strings(&["Dockerfile", "Makefile"]));
}
