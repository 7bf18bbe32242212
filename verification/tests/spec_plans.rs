//! Plans of small pipelines, with the jobs written out as values.
use indexmap::IndexMap;
use lab_core::model::job::{AllowFailure, Job, Need, ParallelConfig, StringOrVec, When};
use lab_core::model::pipeline::Plan;
use lab_core::model::rules::{Rule, RuleContext};
use lab_core::model::variables::{VariableValue, Variables};
use lab_core::planner::dag::build_plan;

fn job(stage: &str, script: &str) -> Job {
    Job {
        image: None,
        stage: stage.to_string(),
        script: vec![script.to_string()],
        before_script: None,
        after_script: None,
        variables: Variables::new(),
        rules: None,
        needs: None,
        dependencies: None,
        artifacts: None,
        cache: None,
        services: None,
        when: When::OnSuccess,
        allow_failure: AllowFailure::default(),
        timeout: None,
        retry: None,
        parallel: None,
        extends: None,
        tags: None,
        resource_group: None,
        interruptible: None,
        inherit: None,
        coverage: None,
        start_in: None,
        trigger: None,
        manual_confirmation: None,
    }
}

fn needs(names: &[&str]) -> Option<Vec<Need>> {
    Some(names.iter().map(|n| Need::Simple(n.to_string())).collect())
}

fn optional_need(name: &str) -> Option<Vec<Need>> {
    Some(vec![Need::Detailed { job: name.to_string(), artifacts: true, optional: true }])
}

fn rule(if_expr: Option<&str>, when: Option<When>) -> Rule {
    Rule {
        if_expr: if_expr.map(|s| s.to_string()),
        changes: None,
        exists: None,
        when,
        allow_failure: None,
        variables: None,
    }
}

fn vars(pairs: &[(&str, &str)]) -> Variables {
    let mut v = Variables::new();
    for (k, x) in pairs {
        v.insert(k.to_string(), VariableValue::Simple(x.to_string()));
    }
    v
}

fn stages(names: &[&str]) -> Vec<String> {
    names.iter().map(|s| s.to_string()).collect()
}

fn no_context() -> RuleContext {
    RuleContext { changes: vec![], existing: vec![] }
}

fn plan(st: &[&str], jobs: &IndexMap<String, Job>, v: &Variables) -> Plan {
    build_plan(&stages(st), jobs, v, None, None, &no_context()).unwrap()
}

fn total(p: &Plan) -> usize {
    p.stages.iter().map(|s| s.jobs.len()).sum()
}

fn matrix_row(entries: &[(&str, &[&str])]) -> IndexMap<String, StringOrVec> {
    let mut row = IndexMap::new();
    for (k, vals) in entries {
        let v = if vals.len() == 1 {
            StringOrVec::Single(vals[0].to_string())
        } else {
            StringOrVec::Multiple(vals.iter().map(|s| s.to_string()).collect())
        };
        row.insert(k.to_string(), v);
    }
    row
}

#[test]
fn spec_stages_custom_order() {
    let mut jobs = IndexMap::new();
    jobs.insert("build_job".to_string(), job("build", "echo build"));
    jobs.insert("test_job".to_string(), job("test", "echo test"));
    jobs.insert("deploy_job".to_string(), job("deploy", "echo deploy"));
    let p = plan(&["build", "test", "deploy"], &jobs, &Variables::new());
    assert_eq!(p.stages.len(), 3);
    assert_eq!(p.stages[0].name, "build");
    assert_eq!(p.stages[1].name, "test");
    assert_eq!(p.stages[2].name, "deploy");
}

#[test]
fn test_dag_stage_ordering() {
    let mut jobs = IndexMap::new();
    jobs.insert("build".to_string(), job("build", "echo build"));
    jobs.insert("test".to_string(), job("test", "echo test"));
    jobs.insert("deploy".to_string(), job("deploy", "echo deploy"));
    let p = plan(&["build", "test", "deploy"], &jobs, &Variables::new());
    assert_eq!(p.stages.len(), 3);
    assert_eq!(p.stages[0].name, "build");
    assert_eq!(p.stages[1].name, "test");
    assert_eq!(p.stages[2].name, "deploy");
}

#[test]
fn spec_parallel_matrix_deploystacks() {
    let mut j = job("deploy", "bin/deploy");
    j.parallel = Some(ParallelConfig::Matrix {
        matrix: vec![
            matrix_row(&[("PROVIDER", &["aws"]), ("STACK", &["monitoring", "app1", "app2"])]),
            matrix_row(&[("PROVIDER", &["gcp", "vultr"]), ("STACK", &["data", "processing"])]),
        ],
    });
    let mut jobs = IndexMap::new();
    jobs.insert("deploystacks".to_string(), j);
    let p = plan(&["deploy"], &jobs, &Variables::new());
    assert_eq!(total(&p), 7);
}

#[test]
fn spec_parallel_simple_naming() {
    let mut j = job("test", "rspec");
    j.parallel = Some(ParallelConfig::Count(5));
    let mut jobs = IndexMap::new();
    jobs.insert("test".to_string(), j);
    let p = plan(&["test"], &jobs, &Variables::new());
    assert_eq!(total(&p), 5);
    let names: Vec<&str> = p.stages[0].jobs.iter().map(|j| j.name.as_str()).collect();
    assert!(names.contains(&"test 1/5"));
    assert!(names.contains(&"test 5/5"));
}

#[test]
fn spec_parallel_ci_node_variables() {
    let mut j = job("test", "echo test");
    j.parallel = Some(ParallelConfig::Count(3));
    let mut jobs = IndexMap::new();
    jobs.insert("test".to_string(), j);
    let p = plan(&["test"], &jobs, &Variables::new());
    for pj in &p.stages[0].jobs {
        assert!(pj.job.variables.contains_key("CI_NODE_INDEX"));
        assert!(pj.job.variables.contains_key("CI_NODE_TOTAL"));
        assert_eq!(pj.job.variables.get("CI_NODE_TOTAL").unwrap().value(), "3");
    }
}

#[test]
fn test_parallel_count() {
    let mut j = job("test", "echo test");
    j.parallel = Some(ParallelConfig::Count(3));
    let mut jobs = IndexMap::new();
    jobs.insert("test".to_string(), j);
    let p = plan(&["test"], &jobs, &Variables::new());
    assert_eq!(total(&p), 3);
}

#[test]
fn test_parallel_matrix() {
    let mut j = job("test", "echo \"$DB $VER\"");
    j.parallel = Some(ParallelConfig::Matrix {
        matrix: vec![matrix_row(&[("DB", &["postgres", "mysql"]), ("VER", &["14", "15"])])],
    });
    let mut jobs = IndexMap::new();
    jobs.insert("test".to_string(), j);
    let p = plan(&["test"], &jobs, &Variables::new());
    assert_eq!(total(&p), 4);
}

#[test]
fn test_parallel_matrix_variable_injection() {
    let mut j = job("test", "echo \"$DB $VER\"");
    j.parallel = Some(ParallelConfig::Matrix {
        matrix: vec![matrix_row(&[("DB", &["postgres"]), ("VER", &["14", "15", "16"])])],
    });
    let mut jobs = IndexMap::new();
    jobs.insert("test".to_string(), j);
    let p = plan(&["test"], &jobs, &Variables::new());
    assert_eq!(total(&p), 3);
    for stage in &p.stages {
        for pj in &stage.jobs {
            assert!(pj.job.variables.contains_key("DB"));
            assert!(pj.job.variables.contains_key("VER"));
        }
    }
}

#[test]
fn spec_needs_basic() {
    let mut jobs = IndexMap::new();
    jobs.insert("build_a".to_string(), job("build", "echo build_a"));
    jobs.insert("build_b".to_string(), job("build", "echo build_b"));
    jobs.insert("test_a".to_string(), Job { needs: needs(&["build_a"]), ..job("test", "echo test_a") });
    jobs.insert("test_b".to_string(), Job { needs: needs(&["build_b"]), ..job("test", "echo test_b") });
    jobs.insert("deploy_a".to_string(), Job { needs: needs(&["test_a"]), ..job("deploy", "echo deploy_a") });
    let p = plan(&["build", "test", "deploy"], &jobs, &Variables::new());
    assert_eq!(p.stages[0].name, "build");
    assert_eq!(p.stages[0].jobs.len(), 2);
}

#[test]
fn test_dag_needs_bypass_stage() {
    let mut jobs = IndexMap::new();
    jobs.insert("build_a".to_string(), job("build", "echo a"));
    jobs.insert("build_b".to_string(), job("build", "echo b"));
    jobs.insert("test_a".to_string(), Job { needs: needs(&["build_a"]), ..job("test", "echo test_a") });
    let p = plan(&["build", "test"], &jobs, &Variables::new());
    assert!(p.stages.len() >= 2);
}

#[test]
fn test_needs_same_stage() {
    let mut jobs = IndexMap::new();
    jobs.insert("job1".to_string(), job("test", "echo first"));
    jobs.insert("job2".to_string(), Job { needs: needs(&["job1"]), ..job("test", "echo second") });
    let p = plan(&["test"], &jobs, &Variables::new());
    assert_eq!(total(&p), 2);
}

#[test]
fn spec_needs_optional() {
    let mut jobs = IndexMap::new();
    jobs.insert("test".to_string(), Job { needs: optional_need("missing_job"), ..job("test", "echo test") });
    let p = build_plan(&stages(&["test"]), &jobs, &Variables::new(), None, None, &no_context());
    assert!(p.is_ok());
}

#[test]
fn test_needs_optional_missing_dep() {
    let mut jobs = IndexMap::new();
    jobs.insert("test".to_string(), Job { needs: optional_need("nonexistent"), ..job("test", "echo test") });
    let p = build_plan(&stages(&["test"]), &jobs, &Variables::new(), None, None, &no_context());
    assert!(p.is_ok());
}

#[test]
fn test_dag_circular_dependency() {
    let mut jobs = IndexMap::new();
    jobs.insert("a".to_string(), Job { needs: needs(&["b"]), ..job("test", "echo a") });
    jobs.insert("b".to_string(), Job { needs: needs(&["a"]), ..job("test", "echo b") });
    let p = build_plan(&stages(&["test"]), &jobs, &Variables::new(), None, None, &no_context());
    assert!(p.is_err());
}

#[test]
fn test_dag_job_filter() {
    let mut jobs = IndexMap::new();
    jobs.insert("a".to_string(), job("test", "echo a"));
    jobs.insert("b".to_string(), job("test", "echo b"));
    jobs.insert("c".to_string(), job("test", "echo c"));
    let p = build_plan(&stages(&["test"]), &jobs, &Variables::new(), Some("b"), None, &no_context())
        .unwrap();
    assert_eq!(total(&p), 1);
    assert_eq!(p.stages[0].jobs[0].name, "b");
}

#[test]
fn test_dag_stage_filter() {
    let mut jobs = IndexMap::new();
    jobs.insert("build_job".to_string(), job("build", "echo build"));
    jobs.insert("test_a".to_string(), job("test", "echo a"));
    jobs.insert("test_b".to_string(), job("test", "echo b"));
    let p = build_plan(&stages(&["build", "test"]), &jobs, &Variables::new(), None, Some("test"), &no_context())
        .unwrap();
    assert_eq!(total(&p), 2);
}

#[test]
fn test_when_never_filtered_from_plan() {
    let mut jobs = IndexMap::new();
    jobs.insert("active".to_string(), job("test", "echo active"));
    jobs.insert("inactive".to_string(), Job { when: When::Never, ..job("test", "echo inactive") });
    let p = plan(&["test"], &jobs, &Variables::new());
    assert_eq!(total(&p), 1);
}

#[test]
fn spec_rules_if_basic() {
    let v = vars(&[("CI_PIPELINE_SOURCE", "push")]);
    let mut jobs = IndexMap::new();
    jobs.insert(
        "test".to_string(),
        Job { rules: Some(vec![rule(Some("$CI_PIPELINE_SOURCE == \"push\""), None)]), ..job("test", "echo test") },
    );
    let p = plan(&["test"], &jobs, &v);
    assert_eq!(total(&p), 1);
}

#[test]
fn spec_rules_if_no_match_excludes_job() {
    let v = vars(&[("CI_PIPELINE_SOURCE", "web")]);
    let mut jobs = IndexMap::new();
    jobs.insert(
        "test".to_string(),
        Job { rules: Some(vec![rule(Some("$CI_PIPELINE_SOURCE == \"push\""), None)]), ..job("test", "echo test") },
    );
    let p = plan(&["test"], &jobs, &v);
    assert_eq!(total(&p), 0);
}

#[test]
fn spec_rules_when_never() {
    let v = vars(&[("CI_COMMIT_BRANCH", "my-feature-draft")]);
    let mut jobs = IndexMap::new();
    jobs.insert(
        "test".to_string(),
        Job {
            rules: Some(vec![
                rule(Some("$CI_COMMIT_BRANCH =~ /-draft$/"), Some(When::Never)),
                rule(None, Some(When::OnSuccess)),
            ]),
            ..job("test", "echo test")
        },
    );
    let p = plan(&["test"], &jobs, &v);
    assert!(p.stages.is_empty());
}

#[test]
fn spec_rules_fallthrough_to_when() {
    let v = vars(&[("CI_COMMIT_BRANCH", "feature")]);
    let mut jobs = IndexMap::new();
    jobs.insert(
        "test".to_string(),
        Job {
            rules: Some(vec![
                rule(Some("$CI_COMMIT_BRANCH == \"main\""), Some(When::Always)),
                rule(None, Some(When::Manual)),
            ]),
            ..job("test", "echo test")
        },
    );
    let p = plan(&["test"], &jobs, &v);
    assert_eq!(p.stages[0].jobs[0].job.when, When::Manual);
}

#[test]
fn test_rules_when_override() {
    let v = vars(&[("DEPLOY", "true")]);
    let mut jobs = IndexMap::new();
    jobs.insert(
        "test".to_string(),
        Job {
            rules: Some(vec![
                rule(Some("$DEPLOY == \"true\""), Some(When::Manual)),
                rule(None, Some(When::OnSuccess)),
            ]),
            ..job("test", "echo test")
        },
    );
    let p = plan(&["test"], &jobs, &v);
    assert_eq!(p.stages[0].jobs[0].job.when, When::Manual);
}

#[test]
fn test_rules_allow_failure_override() {
    let v = vars(&[("EXPERIMENTAL", "true")]);
    let mut first = rule(Some("$EXPERIMENTAL == \"true\""), None);
    first.allow_failure = Some(AllowFailure::Bool(true));
    let mut jobs = IndexMap::new();
    jobs.insert(
        "test".to_string(),
        Job { rules: Some(vec![first, rule(None, Some(When::OnSuccess))]), ..job("test", "echo test") },
    );
    let p = plan(&["test"], &jobs, &v);
    assert!(p.stages[0].jobs[0].job.allow_failure.is_allowed(1));
}

fn rule_with_vars(if_expr: Option<&str>, pairs: &[(&str, &str)]) -> Rule {
    let mut r = rule(if_expr, None);
    r.variables = Some(vars(pairs));
    r
}

#[test]
fn spec_rules_variables() {
    let v = vars(&[("CI_COMMIT_BRANCH", "main")]);
    let mut jobs = IndexMap::new();
    jobs.insert(
        "test".to_string(),
        Job {
            rules: Some(vec![
                rule_with_vars(Some("$CI_COMMIT_BRANCH == \"main\""), &[("DEPLOY_VARIABLE", "deploy-production")]),
                rule_with_vars(Some("$CI_COMMIT_BRANCH"), &[("DEPLOY_VARIABLE", "deploy-staging")]),
            ]),
            ..job("test", "echo $DEPLOY_VARIABLE")
        },
    );
    let p = plan(&["test"], &jobs, &v);
    let j = &p.stages[0].jobs[0].job;
    assert_eq!(j.variables.get("DEPLOY_VARIABLE").unwrap().value(), "deploy-production");
}

#[test]
fn test_rules_variables_applied() {
    let v = vars(&[("CI_COMMIT_BRANCH", "main")]);
    let mut jobs = IndexMap::new();
    jobs.insert(
        "test".to_string(),
        Job {
            rules: Some(vec![
                rule_with_vars(Some("$CI_COMMIT_BRANCH == \"main\""), &[("DEPLOY_ENV", "production")]),
                rule(None, Some(When::Always)),
            ]),
            ..job("test", "echo $DEPLOY_ENV")
        },
    );
    let p = plan(&["test"], &jobs, &v);
    let j = &p.stages[0].jobs[0].job;
    assert_eq!(j.variables.get("DEPLOY_ENV").unwrap().value(), "production");
}

#[test]
fn spec_stage_pre_and_post() {
    let mut jobs = IndexMap::new();
    jobs.insert("setup".to_string(), job(".pre", "echo setup"));
    jobs.insert("cleanup".to_string(), job(".post", "echo cleanup"));
    jobs.insert("build".to_string(), job("build", "echo build"));
    assert_eq!(jobs["setup"].stage, ".pre");
    assert_eq!(jobs["cleanup"].stage, ".post");
    let p = plan(&[".pre", "build", "test", ".post"], &jobs, &Variables::new());
    assert_eq!(p.stages[0].name, ".pre");
    assert_eq!(p.stages[2].name, ".post");
}
