use indexmap::IndexMap;
use lab_core::model::job::{AllowFailure, Job, Need, When};
use lab_core::model::rules::{Rule, RuleContext};
use lab_core::model::variables::Variables;
use lab_core::planner::dag::build_plan;

fn default_job() -> Job {
    Job {
        image: None,
        stage: "test".to_string(),
        script: vec![],
        before_script: None,
        after_script: None,
        variables: Variables::new(),
        rules: None,
        needs: None,
        dependencies: None,
        artifacts: None,
        cache: None,
        services: None,
        when: When::OnSuccess,
        allow_failure: AllowFailure::default(),
        timeout: None,
        retry: None,
        parallel: None,
        extends: None,
        tags: None,
        resource_group: None,
        interruptible: None,
        inherit: None,
        coverage: None,
        start_in: None,
        trigger: None,
        manual_confirmation: None,
    }
}

fn job(stage: &str) -> Job {
    Job { stage: stage.to_string(), script: vec!["echo test".to_string()], ..default_job() }
}

fn job_with_needs(stage: &str, needs: Vec<&str>) -> Job {
    Job {
        stage: stage.to_string(),
        script: vec!["echo test".to_string()],
        needs: Some(needs.into_iter().map(|n| Need::Simple(n.to_string())).collect()),
        ..default_job()
    }
}

fn no_context() -> RuleContext {
    RuleContext { changes: vec![], existing: vec![] }
}

#[test]
fn test_simple_stages() {
    let stages: Vec<String> = vec!["build".into(), "test".into(), "deploy".into()];
    let mut jobs = IndexMap::new();
    jobs.insert("compile".to_string(), job("build"));
    jobs.insert("unit_test".to_string(), job("test"));
    jobs.insert("release".to_string(), job("deploy"));

    let plan = build_plan(&stages, &jobs, &Variables::new(), None, None, &no_context()).unwrap();
    assert_eq!(plan.stages.len(), 3);
    assert_eq!(plan.stages[0].name, "build");
    assert_eq!(plan.stages[1].name, "test");
    assert_eq!(plan.stages[2].name, "deploy");
}

#[test]
fn test_needs_dag() {
    let stages: Vec<String> = vec!["build".into(), "test".into()];
    let mut jobs = IndexMap::new();
    jobs.insert("build_a".to_string(), job("build"));
    jobs.insert("build_b".to_string(), job("build"));
    jobs.insert("test_a".to_string(), job_with_needs("test", vec!["build_a"]));

    let plan = build_plan(&stages, &jobs, &Variables::new(), None, None, &no_context()).unwrap();
    assert_eq!(plan.stages.len(), 2);
    assert_eq!(plan.stages[0].jobs.len(), 2);
    assert_eq!(plan.stages[1].jobs.len(), 1);
}

#[test]
fn test_circular_dependency() {
    let stages: Vec<String> = vec!["test".into()];
    let mut jobs = IndexMap::new();
    jobs.insert("a".to_string(), job_with_needs("test", vec!["b"]));
    jobs.insert("b".to_string(), job_with_needs("test", vec!["a"]));

    let result = build_plan(&stages, &jobs, &Variables::new(), None, None, &no_context());
    assert!(result.is_err());
}

#[test]
fn test_job_filter() {
    let stages: Vec<String> = vec!["test".into()];
    let mut jobs = IndexMap::new();
    jobs.insert("test_a".to_string(), job("test"));
    jobs.insert("test_b".to_string(), job("test"));

    let plan =
        build_plan(&stages, &jobs, &Variables::new(), Some("test_a"), None, &no_context()).unwrap();
    assert_eq!(plan.stages[0].jobs.len(), 1);
    assert_eq!(plan.stages[0].jobs[0].name, "test_a");
}

#[test]
fn unknown_dependency_is_refused() {
    let stages: Vec<String> = vec!["test".into()];
    let mut jobs = IndexMap::new();
    jobs.insert("a".to_string(), job_with_needs("test", vec!["ghost"]));
    let err = build_plan(&stages, &jobs, &Variables::new(), None, None, &no_context()).unwrap_err();
    assert_eq!(err.message(), "job \"a\" references unknown dependency \"ghost\"");
}

#[test]
fn dependency_runs_before_dependent_in_same_stage() {
    let stages: Vec<String> = vec!["test".into()];
    let mut jobs = IndexMap::new();
    jobs.insert("second".to_string(), job_with_needs("test", vec!["first"]));
    jobs.insert("first".to_string(), job("test"));
    let plan = build_plan(&stages, &jobs, &Variables::new(), None, None, &no_context()).unwrap();
    let names: Vec<String> = plan
        .stages
        .iter()
        .flat_map(|s| s.jobs.iter().map(|j| j.name.clone()))
        .collect();
    let a = names.iter().position(|n| n == "first").unwrap();
    let b = names.iter().position(|n| n == "second").unwrap();
    assert!(a < b);
}

#[test]
fn never_jobs_are_left_out() {
    let stages: Vec<String> = vec!["test".into()];
    let mut jobs = IndexMap::new();
    jobs.insert("a".to_string(), Job { when: When::Never, ..job("test") });
    jobs.insert("b".to_string(), job("test"));
    let plan = build_plan(&stages, &jobs, &Variables::new(), None, None, &no_context()).unwrap();
    assert_eq!(plan.stages.len(), 1);
    assert_eq!(plan.stages[0].jobs.len(), 1);
    assert_eq!(plan.stages[0].jobs[0].name, "b");
}

fn names_of(stage: &lab_core::model::pipeline::Stage) -> Vec<String> {
    stage.jobs.iter().map(|j| j.name.clone()).collect()
}

#[test]
fn needing_job_of_same_stage_gets_a_later_stage() {
    let stages: Vec<String> = vec!["test".into()];
    let mut jobs = IndexMap::new();
    jobs.insert("second".to_string(), job_with_needs("test", vec!["first"]));
    jobs.insert("first".to_string(), job("test"));
    let plan = build_plan(&stages, &jobs, &Variables::new(), None, None, &no_context()).unwrap();
    assert_eq!(plan.stages.len(), 2);
    assert_eq!(plan.stages[0].name, "test");
    assert_eq!(names_of(&plan.stages[0]), vec!["first".to_string()]);
    assert_eq!(plan.stages[1].name, "test");
    assert_eq!(names_of(&plan.stages[1]), vec!["second".to_string()]);
}

#[test]
fn rounds_keep_stage_order_within_them() {
    let stages: Vec<String> = vec!["build".into(), "test".into(), "deploy".into()];
    let mut jobs = IndexMap::new();
    jobs.insert("lint".to_string(), job_with_needs("test", vec![]));
    jobs.insert("compile".to_string(), job("build"));
    jobs.insert("unit".to_string(), job("test"));
    jobs.insert("ship".to_string(), job("deploy"));
    let plan = build_plan(&stages, &jobs, &Variables::new(), None, None, &no_context()).unwrap();
    let got: Vec<(String, Vec<String>)> =
        plan.stages.iter().map(|s| (s.name.clone(), names_of(s))).collect();
    assert_eq!(
        got,
        vec![
            ("build".to_string(), vec!["compile".to_string()]),
            ("test".to_string(), vec!["lint".to_string()]),
            ("test".to_string(), vec!["unit".to_string()]),
            ("deploy".to_string(), vec!["ship".to_string()]),
        ]
    );
}

fn rule_always(allow_failure: Option<AllowFailure>) -> Rule {
    Rule { if_expr: None, changes: None, exists: None, when: None, allow_failure, variables: None }
}

#[test]
fn rule_without_allow_failure_keeps_the_jobs() {
    let stages: Vec<String> = vec!["test".into()];
    let mut jobs = IndexMap::new();
    jobs.insert(
        "flaky".to_string(),
        Job {
            allow_failure: AllowFailure::Bool(true),
            rules: Some(vec![rule_always(None)]),
            ..job("test")
        },
    );
    let plan = build_plan(&stages, &jobs, &Variables::new(), None, None, &no_context()).unwrap();
    assert!(plan.stages[0].jobs[0].job.allow_failure.is_allowed(1));
}

#[test]
fn rule_allow_failure_overrides_the_jobs() {
    let stages: Vec<String> = vec!["test".into()];
    let mut jobs = IndexMap::new();
    jobs.insert(
        "strict".to_string(),
        Job {
            allow_failure: AllowFailure::Bool(true),
            rules: Some(vec![rule_always(Some(AllowFailure::Bool(false)))]),
            ..job("test")
        },
    );
    let plan = build_plan(&stages, &jobs, &Variables::new(), None, None, &no_context()).unwrap();
    assert!(!plan.stages[0].jobs[0].job.allow_failure.is_allowed(1));
}
