//! The pipeline and its execution plan.
use vstd::prelude::*;

use indexmap::IndexMap;

use crate::model::job::{Job, JobDefaults};
use crate::model::rules::Rule;
use crate::model::variables::Variables;
use crate::text::views;

verus! {

/// A fully parsed and resolved GitLab CI pipeline.
#[derive(Debug, Clone)]
pub struct Pipeline {
    /// Ordered list of stage names.
    pub stages: Vec<String>,
    /// Global variables.
    pub variables: Variables,
    /// Default settings applied to all jobs.
    pub defaults: JobDefaults,
    /// Job definitions keyed by name (insertion-ordered).
    pub jobs: IndexMap<String, Job>,
    /// Pipeline-level workflow configuration.
    pub workflow: Option<WorkflowConfig>,
}

/// Workflow-level configuration controlling pipeline creation.
#[derive(Debug, Clone)]
pub struct WorkflowConfig {
    /// Rules that determine whether the pipeline is created.
    pub rules: Vec<Rule>,
    /// Pipeline name (can contain CI/CD variables).
    pub name: Option<String>,
    /// Auto-cancel configuration.
    pub auto_cancel: Option<AutoCancelConfig>,
}

/// Auto-cancel configuration for workflow.
#[derive(Debug, Clone)]
pub struct AutoCancelConfig {
    pub on_new_commit: Option<String>,
    pub on_job_failure: Option<String>,
}

impl Default for AutoCancelConfig {
    fn default() -> (r: AutoCancelConfig)
        ensures
            r.on_new_commit is None,
            r.on_job_failure is None,
    {
        AutoCancelConfig { on_new_commit: None, on_job_failure: None }
    }
}

/// The stages used when a pipeline names none.
pub open spec fn default_stage_names() -> Seq<Seq<char>> {
    seq![
        seq!['.', 'p', 'r', 'e'],
        seq!['b', 'u', 'i', 'l', 'd'],
        seq!['t', 'e', 's', 't'],
        seq!['d', 'e', 'p', 'l', 'o', 'y'],
        seq!['.', 'p', 'o', 's', 't'],
    ]
}

/// Default stages if not specified: `.pre`, `build`, `test`, `deploy`, `.post`.
pub fn default_stages() -> (r: Vec<String>)
    ensures
        views(r@) == default_stage_names(),
{
    let mut v: Vec<String> = Vec::new();
    v.push(String::from_str(".pre"));
    v.push(String::from_str("build"));
    v.push(String::from_str("test"));
    v.push(String::from_str("deploy"));
    v.push(String::from_str(".post"));
    proof {
        reveal_strlit(".pre");
        reveal_strlit("build");
        reveal_strlit("test");
        reveal_strlit("deploy");
        reveal_strlit(".post");
        assert(".pre"@ =~= seq!['.', 'p', 'r', 'e']);
        assert("build"@ =~= seq!['b', 'u', 'i', 'l', 'd']);
        assert("test"@ =~= seq!['t', 'e', 's', 't']);
        assert("deploy"@ =~= seq!['d', 'e', 'p', 'l', 'o', 'y']);
        assert(".post"@ =~= seq!['.', 'p', 'o', 's', 't']);
    }
    assert(views(v@) =~= default_stage_names());
    v
}

/// Execution plan: the DAG resolved into ordered stages with parallel jobs.
#[derive(Debug, Clone)]
pub struct Plan {
    pub stages: Vec<Stage>,
}

/// A group of jobs that can run in parallel.
#[derive(Debug, Clone)]
pub struct Stage {
    pub name: String,
    pub jobs: Vec<PlannedJob>,
}

/// A job scheduled for execution, potentially expanded from a matrix.
#[derive(Debug, Clone)]
pub struct PlannedJob {
    pub name: String,
    pub job: Job,
    pub matrix_entry: Option<IndexMap<String, String>>,
}

} // verus!
