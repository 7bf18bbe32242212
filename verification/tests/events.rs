//! Which jobs run for a pipeline event, with the pipelines written out as values.
use indexmap::IndexMap;
use lab_core::model::job::{AllowFailure, Job, When};
use lab_core::model::pipeline::Plan;
use lab_core::model::rules::{evaluate_rules, Rule, RuleContext, RuleResult};
use lab_core::model::variables::{merge_variables, VariableValue, Variables};
use lab_core::planner::dag::build_plan;

fn job(stage: &str, rules: Option<Vec<Rule>>) -> Job {
    Job {
        image: None,
        stage: stage.to_string(),
        script: vec![format!("echo {stage}")],
        before_script: None,
        after_script: None,
        variables: Variables::new(),
        rules,
        needs: None,
        dependencies: None,
        artifacts: None,
        cache: None,
        services: None,
        when: When::OnSuccess,
        allow_failure: AllowFailure::default(),
        timeout: None,
        retry: None,
        parallel: None,
        extends: None,
        tags: None,
        resource_group: None,
        interruptible: None,
        inherit: None,
        coverage: None,
        start_in: None,
        trigger: None,
        manual_confirmation: None,
    }
}

fn vars(pairs: &[(&str, &str)]) -> Variables {
    let mut v = Variables::new();
    for (k, x) in pairs {
        v.insert(k.to_string(), VariableValue::Simple(x.to_string()));
    }
    v
}

fn rule(if_expr: Option<&str>, when: Option<When>, variables: &[(&str, &str)]) -> Rule {
    Rule {
        if_expr: if_expr.map(|s| s.to_string()),
        changes: None,
        exists: None,
        when,
        allow_failure: None,
        variables: if variables.is_empty() { None } else { Some(vars(variables)) },
    }
}

fn when_if(expr: &str) -> Rule {
    rule(Some(expr), None, &[])
}

/// The plan for an event: the event's variables over the pipeline's, `workflow:rules`
/// deciding whether the pipeline runs and adding their variables.
fn plan_with_vars(
    stages: &[&str],
    workflow: &[Rule],
    jobs: &IndexMap<String, Job>,
    extra: &[(&str, &str)],
) -> Plan {
    let ctx = RuleContext { changes: vec![], existing: vec![] };
    let pipeline_vars = Variables::new();
    let event = vars(extra);
    let mut global = merge_variables(&[&pipeline_vars, &event]);
    if !workflow.is_empty() {
        match evaluate_rules(workflow, &global, When::Always, &ctx) {
            RuleResult::Matched { when: When::Never, .. } | RuleResult::NotMatched => {
                return Plan { stages: vec![] };
            }
            RuleResult::Matched { variables, .. } => {
                if let Some(wf) = variables {
                    for (k, v) in wf {
                        global.insert(k, v);
                    }
                }
            }
        }
    }
    let stages: Vec<String> = stages.iter().map(|s| s.to_string()).collect();
    build_plan(&stages, jobs, &global, None, None, &ctx).unwrap()
}

fn job_names(plan: &Plan) -> Vec<String> {
    plan.stages.iter().flat_map(|s| s.jobs.iter().map(|j| j.name.clone())).collect()
}

fn push_or_mr() -> Vec<Rule> {
    vec![
        when_if("$CI_PIPELINE_SOURCE == \"push\""),
        when_if("$CI_PIPELINE_SOURCE == \"merge_request_event\""),
    ]
}

fn main_only_deploy() -> IndexMap<String, Job> {
    let mut jobs = IndexMap::new();
    jobs.insert("test".to_string(), job("test", None));
    jobs.insert(
        "deploy".to_string(),
        job(
            "deploy",
            Some(vec![
                rule(Some("$CI_COMMIT_BRANCH == \"main\""), Some(When::Always), &[]),
                rule(None, Some(When::Never), &[]),
            ]),
        ),
    );
    jobs
}

#[test]
fn test_event_push_triggers_main_jobs() {
    let plan = plan_with_vars(
        &["test", "deploy"],
        &push_or_mr(),
        &main_only_deploy(),
        &[("CI_PIPELINE_SOURCE", "push"), ("CI_COMMIT_BRANCH", "main")],
    );
    let names = job_names(&plan);
    assert!(names.contains(&"test".to_string()));
    assert!(names.contains(&"deploy".to_string()));
}

#[test]
fn test_event_mr_excludes_deploy() {
    let plan = plan_with_vars(
        &["test", "deploy"],
        &push_or_mr(),
        &main_only_deploy(),
        &[("CI_PIPELINE_SOURCE", "merge_request_event"), ("CI_COMMIT_BRANCH", "feature/login")],
    );
    let names = job_names(&plan);
    assert!(names.contains(&"test".to_string()));
    assert!(!names.contains(&"deploy".to_string()));
}

#[test]
fn test_event_tag_triggers_tag_jobs() {
    let workflow = vec![when_if("$CI_PIPELINE_SOURCE == \"push\""), when_if("$CI_COMMIT_TAG")];
    let mut jobs = IndexMap::new();
    jobs.insert("build".to_string(), job("build", None));
    jobs.insert("build-tagged".to_string(), job("build", Some(vec![when_if("$CI_COMMIT_TAG =~ /^v\\d+/")])));
    jobs.insert(
        "deploy-prod".to_string(),
        job("deploy", Some(vec![rule(Some("$CI_COMMIT_TAG =~ /^v\\d+/"), Some(When::Manual), &[])])),
    );
    let plan = plan_with_vars(
        &["build", "deploy"],
        &workflow,
        &jobs,
        &[("CI_PIPELINE_SOURCE", "push"), ("CI_COMMIT_TAG", "v1.2.3")],
    );
    let names = job_names(&plan);
    assert!(names.contains(&"build".to_string()));
    assert!(names.contains(&"build-tagged".to_string()));
    assert!(names.contains(&"deploy-prod".to_string()));
}

#[test]
fn test_event_tag_without_match_excludes_tag_jobs() {
    let workflow = vec![when_if("$CI_PIPELINE_SOURCE == \"push\"")];
    let mut jobs = IndexMap::new();
    jobs.insert("build".to_string(), job("build", None));
    jobs.insert("build-tagged".to_string(), job("build", Some(vec![when_if("$CI_COMMIT_TAG =~ /^v\\d+/")])));
    let plan = plan_with_vars(&["build"], &workflow, &jobs, &[("CI_PIPELINE_SOURCE", "push")]);
    let names = job_names(&plan);
    assert!(names.contains(&"build".to_string()));
    assert!(!names.contains(&"build-tagged".to_string()));
}

#[test]
fn test_event_schedule() {
    let workflow = vec![
        when_if("$CI_PIPELINE_SOURCE == \"push\""),
        when_if("$CI_PIPELINE_SOURCE == \"schedule\""),
    ];
    let mut jobs = IndexMap::new();
    jobs.insert("test".to_string(), job("test", None));
    jobs.insert(
        "nightly-cleanup".to_string(),
        job("cleanup", Some(vec![when_if("$CI_PIPELINE_SOURCE == \"schedule\"")])),
    );
    let plan = plan_with_vars(&["test", "cleanup"], &workflow, &jobs, &[("CI_PIPELINE_SOURCE", "schedule")]);
    let names = job_names(&plan);
    assert!(names.contains(&"test".to_string()));
    assert!(names.contains(&"nightly-cleanup".to_string()));

    let plan = plan_with_vars(&["test", "cleanup"], &workflow, &jobs, &[("CI_PIPELINE_SOURCE", "push")]);
    let names = job_names(&plan);
    assert!(names.contains(&"test".to_string()));
    assert!(!names.contains(&"nightly-cleanup".to_string()));
}

#[test]
fn test_event_web_with_workflow_variables() {
    let workflow = vec![
        rule(Some("$CI_PIPELINE_SOURCE == \"web\""), None, &[("PIPELINE_TYPE", "manual_deploy")]),
        when_if("$CI_COMMIT_BRANCH"),
    ];
    let mut jobs = IndexMap::new();
    jobs.insert(
        "test".to_string(),
        job(
            "test",
            Some(vec![
                rule(Some("$PIPELINE_TYPE == \"manual_deploy\""), Some(When::Never), &[]),
                rule(None, Some(When::OnSuccess), &[]),
            ]),
        ),
    );
    jobs.insert(
        "manual-deploy".to_string(),
        job("deploy", Some(vec![when_if("$PIPELINE_TYPE == \"manual_deploy\"")])),
    );
    let plan = plan_with_vars(
        &["test", "deploy"],
        &workflow,
        &jobs,
        &[("CI_PIPELINE_SOURCE", "web"), ("CI_COMMIT_BRANCH", "main")],
    );
    let names = job_names(&plan);
    assert!(!names.contains(&"test".to_string()));
    assert!(names.contains(&"manual-deploy".to_string()));

    let plan = plan_with_vars(
        &["test", "deploy"],
        &workflow,
        &jobs,
        &[("CI_PIPELINE_SOURCE", "push"), ("CI_COMMIT_BRANCH", "main")],
    );
    let names = job_names(&plan);
    assert!(names.contains(&"test".to_string()));
    assert!(!names.contains(&"manual-deploy".to_string()));
}

#[test]
fn test_event_workflow_blocks_unknown_source() {
    let mut jobs = IndexMap::new();
    jobs.insert("test".to_string(), job("test", None));
    let plan = plan_with_vars(&["test"], &push_or_mr(), &jobs, &[("CI_PIPELINE_SOURCE", "chat")]);
    assert!(plan.stages.is_empty());
}

#[test]
fn test_event_trigger_downstream() {
    let workflow = vec![
        when_if("$CI_PIPELINE_SOURCE == \"pipeline\""),
        when_if("$CI_PIPELINE_SOURCE == \"push\""),
    ];
    let mut jobs = IndexMap::new();
    jobs.insert("test".to_string(), job("test", None));
    jobs.insert(
        "downstream-only".to_string(),
        job("test", Some(vec![when_if("$CI_PIPELINE_SOURCE == \"pipeline\"")])),
    );
    let plan = plan_with_vars(&["test"], &workflow, &jobs, &[("CI_PIPELINE_SOURCE", "pipeline")]);
    let names = job_names(&plan);
    assert!(names.contains(&"test".to_string()));
    assert!(names.contains(&"downstream-only".to_string()));

    let plan = plan_with_vars(&["test"], &workflow, &jobs, &[("CI_PIPELINE_SOURCE", "push")]);
    let names = job_names(&plan);
    assert!(names.contains(&"test".to_string()));
    assert!(!names.contains(&"downstream-only".to_string()));
}

#[test]
fn test_event_multiple_rules_first_match_wins() {
    let workflow = vec![
        rule(Some("$CI_PIPELINE_SOURCE == \"web\""), None, &[("TARGET", "manual")]),
        rule(Some("$CI_COMMIT_BRANCH == \"main\""), None, &[("TARGET", "auto")]),
        rule(None, Some(When::Never), &[]),
    ];
    let mut jobs = IndexMap::new();
    jobs.insert("deploy".to_string(), job("deploy", None));
    let plan = plan_with_vars(
        &["deploy"],
        &workflow,
        &jobs,
        &[("CI_PIPELINE_SOURCE", "web"), ("CI_COMMIT_BRANCH", "main")],
    );
    assert!(!plan.stages.is_empty());
    let plan = plan_with_vars(
        &["deploy"],
        &workflow,
        &jobs,
        &[("CI_PIPELINE_SOURCE", "push"), ("CI_COMMIT_BRANCH", "main")],
    );
    assert!(!plan.stages.is_empty());
    let plan = plan_with_vars(
        &["deploy"],
        &workflow,
        &jobs,
        &[("CI_PIPELINE_SOURCE", "push"), ("CI_COMMIT_BRANCH", "feature")],
    );
    assert!(plan.stages.is_empty());
}

#[test]
fn test_event_draft_commit_blocked() {
    let workflow = vec![
        rule(Some("$CI_COMMIT_TITLE =~ /-draft$/"), Some(When::Never), &[]),
        when_if("$CI_PIPELINE_SOURCE == \"push\""),
    ];
    let mut jobs = IndexMap::new();
    jobs.insert("test".to_string(), job("test", None));
    let plan = plan_with_vars(
        &["test"],
        &workflow,
        &jobs,
        &[("CI_PIPELINE_SOURCE", "push"), ("CI_COMMIT_TITLE", "wip: my-draft")],
    );
    assert!(plan.stages.is_empty());
    let plan = plan_with_vars(
        &["test"],
        &workflow,
        &jobs,
        &[("CI_PIPELINE_SOURCE", "push"), ("CI_COMMIT_TITLE", "feat: add login")],
    );
    assert!(!plan.stages.is_empty());
}
