//! Static analysis of a pipeline: security, performance and best-practice findings.
use vstd::prelude::*;

use crate::collections::{
    has_key, job_entries, jobs_get_index, jobs_len, key_index, var_entries, vars_get_index,
    vars_index_of, vars_len,
};
use crate::model::job::{view_names, AllowFailureView, ArtifactView, Job, JobView, ParallelView, When};
use crate::model::pipeline::Pipeline;
use crate::model::variables::VariableView;
use crate::secrets::{collect_job_texts, job_texts, jobs_refs, references_in, texts_refs, text_refs};
use crate::text::{
    concat, concat3, contains, contains_seq, decimal, ends_with, join_strings, joined,
    lemma_contains_concat, lowercase_of, all_ascii, ascii_upper, starts_with, str_eq, to_lowercase, u64_to_string, views,
};

verus! {

#[derive(Debug, Clone, Copy, PartialEq, Eq, Structural)]
pub enum Severity {
    Critical,
    Warning,
    Info,
}

#[derive(Debug, Clone, Copy, PartialEq, Eq, Structural)]
pub enum Category {
    Security,
    Performance,
    BestPractice,
}

/// One finding of the analysis.
#[derive(Debug)]
pub struct Finding {
    pub severity: Severity,
    pub category: Category,
    pub job: Option<String>,
    pub rule: String,
    pub message: String,
    pub suggestion: String,
}

pub struct FindingView {
    pub severity: Severity,
    pub category: Category,
    pub job: Option<Seq<char>>,
    pub rule: Seq<char>,
    pub message: Seq<char>,
    pub suggestion: Seq<char>,
}

impl View for Finding {
    type V = FindingView;

    open spec fn view(&self) -> FindingView {
        FindingView {
            severity: self.severity,
            category: self.category,
            job: match self.job {
                Some(j) => Some(j@),
                None => None,
            },
            rule: self.rule@,
            message: self.message@,
            suggestion: self.suggestion@,
        }
    }
}

impl Clone for Finding {
    fn clone(&self) -> (r: Finding)
        ensures
            r@ == self@,
    {
        Finding {
            severity: self.severity,
            category: self.category,
            job: match &self.job {
                Some(j) => Some(j.clone()),
                None => None,
            },
            rule: self.rule.clone(),
            message: self.message.clone(),
            suggestion: self.suggestion.clone(),
        }
    }
}

pub open spec fn finding_views(v: Seq<Finding>) -> Seq<FindingView> {
    v.map_values(|f: Finding| f@)
}

pub open spec fn fv(
    severity: Severity,
    category: Category,
    job: Option<Seq<char>>,
    rule: Seq<char>,
    message: Seq<char>,
    suggestion: Seq<char>,
) -> FindingView {
    FindingView { severity, category, job, rule, message, suggestion }
}

/// One finding when `cond` holds, none otherwise.
pub open spec fn when_holds(cond: bool, f: FindingView) -> Seq<FindingView> {
    if cond {
        seq![f]
    } else {
        Seq::empty()
    }
}

fn finding(
    severity: Severity,
    category: Category,
    job: Option<&str>,
    rule: &str,
    message: String,
    suggestion: &str,
) -> (r: Finding)
    ensures
        r@ == fv(
            severity,
            category,
            match job {
                Some(j) => Some(j@),
                None => None,
            },
            rule@,
            message@,
            suggestion@,
        ),
{
    Finding {
        severity,
        category,
        job: match job {
            Some(j) => Some(String::from_str(j)),
            None => None,
        },
        rule: String::from_str(rule),
        message,
        suggestion: String::from_str(suggestion),
    }
}

/// Append one finding.
fn push_finding(out: &mut Vec<Finding>, f: Finding)
    ensures
        finding_views(final(out)@) == finding_views(old(out)@).push(f@),
{
    let ghost before = finding_views(out@);
    out.push(f);
    assert(finding_views(out@) =~= before.push(f@));
}

/// Append findings.
fn append_findings(out: &mut Vec<Finding>, more: Vec<Finding>)
    ensures
        finding_views(final(out)@) == finding_views(old(out)@) + finding_views(more@),
{
    let ghost before = finding_views(out@);
    let ghost mv = finding_views(more@);
    let mut more = more;
    out.append(&mut more);
    assert(finding_views(out@) =~= before + mv);
}

/// `str::to_uppercase`: the Unicode uppercase mapping of a string.
pub uninterp spec fn uppercase_of(s: Seq<char>) -> Seq<char>;

/// `str::to_uppercase`. Besides naming the result, the contract states what Unicode's
/// uppercase mapping gives on ASCII text: each letter in upper case, every other
/// character unchanged.
#[verifier::external_body]
fn to_uppercase(s: &str) -> (r: String)
    ensures
        r@ == uppercase_of(s@),
        all_ascii(s@) ==> r@ == s@.map_values(|c: char| ascii_upper(c)),
{
    s.to_uppercase()
}

/// The script of a job joined with spaces.
pub open spec fn script_text(j: JobView) -> Seq<char> {
    joined(j.script, " "@)
}

/// The script of a job joined with spaces, lowercased.
pub open spec fn script_lower(j: JobView) -> Seq<char> {
    lowercase_of(script_text(j))
}

/// The name of a job's image, empty when it has none.
pub open spec fn image_of(j: JobView) -> Seq<char> {
    match j.image {
        Some(i) => i.name,
        None => Seq::empty(),
    }
}

/// Whether a failure with `code` is allowed.
pub open spec fn allows(a: AllowFailureView, code: i32) -> bool {
    match a {
        AllowFailureView::Bool(b) => b,
        AllowFailureView::ExitCodes(c) => c.contains(code),
    }
}

// ---------------------------------------------------------------------------
// Pipeline-wide checks
// ---------------------------------------------------------------------------
pub open spec fn workflow_findings(has_workflow: bool) -> Seq<FindingView> {
    when_holds(
        !has_workflow,
        fv(
            Severity::Warning,
            Category::BestPractice,
            None,
            "missing-workflow-rules"@,
            "No workflow:rules defined \u{2014} pipelines run for every event"@,
            "Add workflow:rules to control when pipelines are created. This prevents duplicate pipelines for MRs."@,
        ),
    )
}

fn check_workflow_rules(pipeline: &Pipeline) -> (r: Vec<Finding>)
    ensures
        finding_views(r@) == workflow_findings(pipeline.workflow is Some),
{
    let mut out: Vec<Finding> = Vec::new();
    if pipeline.workflow.is_none() {
        push_finding(
            &mut out,
            finding(
                Severity::Warning,
                Category::BestPractice,
                None,
                "missing-workflow-rules",
                String::from_str("No workflow:rules defined \u{2014} pipelines run for every event"),
                "Add workflow:rules to control when pipelines are created. This prevents duplicate pipelines for MRs.",
            ),
        );
    }
    assert(finding_views(out@) =~= workflow_findings(pipeline.workflow is Some));
    out
}

/// Whether no job names `needs`.
pub open spec fn none_has_needs(jobs: Seq<(Seq<char>, JobView)>) -> bool {
    forall|i: int| 0 <= i < jobs.len() ==> (#[trigger] jobs[i]).1.needs is None
}

pub open spec fn stages_findings(jobs: Seq<(Seq<char>, JobView)>) -> Seq<FindingView> {
    when_holds(
        jobs.len() > 3 && none_has_needs(jobs),
        fv(
            Severity::Info,
            Category::Performance,
            None,
            "no-dag-needs"@,
            "All "@ + decimal(jobs.len()) + " jobs use stage ordering \u{2014} no needs: keyword used"@,
            "Use needs: to create a DAG. Jobs can start as soon as their dependencies finish, not waiting for entire stages."@,
        ),
    )
}

fn check_stages_optimization(pipeline: &Pipeline) -> (r: Vec<Finding>)
    ensures
        finding_views(r@) == stages_findings(job_entries(pipeline.jobs)),
{
    let ghost jobs = job_entries(pipeline.jobs);
    let n = jobs_len(&pipeline.jobs);
    let mut all_without = true;
    let mut i: usize = 0;
    while i < n
        invariant
            jobs == job_entries(pipeline.jobs),
            n == jobs.len(),
            i <= n,
            all_without == forall|k: int| 0 <= k < i ==> (#[trigger] jobs[k]).1.needs is None,
        decreases n - i,
    {
        let (_, job) = jobs_get_index(&pipeline.jobs, i);
        if job.needs.is_some() {
            all_without = false;
        }
        i = i + 1;
    }
    let mut out: Vec<Finding> = Vec::new();
    if n > 3 && all_without {
        let c = u64_to_string(n as u64);
        let msg = concat3("All ", c.as_str(), " jobs use stage ordering \u{2014} no needs: keyword used");
        push_finding(
            &mut out,
            finding(
                Severity::Info,
                Category::Performance,
                None,
                "no-dag-needs",
                msg,
                "Use needs: to create a DAG. Jobs can start as soon as their dependencies finish, not waiting for entire stages.",
            ),
        );
    }
    assert(finding_views(out@) =~= stages_findings(jobs));
    out
}

// ---------------------------------------------------------------------------
// Checks of one job
// ---------------------------------------------------------------------------
pub open spec fn image_tag_findings(name: Seq<char>, j: JobView) -> Seq<FindingView> {
    let image = image_of(j);
    if image.len() == 0 {
        Seq::empty()
    } else {
        when_holds(
            !image.contains(':') || ":latest"@.is_suffix_of(image),
            fv(
                Severity::Warning,
                Category::Security,
                Some(name),
                "unpinned-image-tag"@,
                "Image '"@ + image + "' uses :latest or no tag \u{2014} builds are non-deterministic"@,
                "Pin to a specific version (e.g., node:20-alpine) or use SHA256 digest"@,
            ),
        ) + when_holds(
            ("node:"@.is_prefix_of(image) || "python:"@.is_prefix_of(image) || "ruby:"@.is_prefix_of(
                image,
            )) && !contains_seq(image, "alpine"@) && !contains_seq(image, "slim"@)
                && !contains_seq(image, "distroless"@),
            fv(
                Severity::Info,
                Category::Performance,
                Some(name),
                "large-base-image"@,
                "Image '"@ + image + "' is a full OS image \u{2014} larger attack surface and slower pulls"@,
                "Use alpine or slim variant (e.g., node:20-alpine) for smaller images"@,
            ),
        )
    }
}

fn image_name_of(job: &Job) -> (r: String)
    ensures
        r@ == image_of(job@),
{
    match &job.image {
        Some(i) => String::from_str(i.name()),
        None => String::new(),
    }
}

fn check_image_tag(name: &str, job: &Job) -> (r: Vec<Finding>)
    ensures
        finding_views(r@) == image_tag_findings(name@, job@),
{
    let image = image_name_of(job);
    let mut out: Vec<Finding> = Vec::new();
    if image.unicode_len() == 0 {
        assert(finding_views(out@) =~= image_tag_findings(name@, job@));
        return out;
    }
    let ghost first = when_holds(
        !image@.contains(':') || ":latest"@.is_suffix_of(image@),
        fv(
            Severity::Warning,
            Category::Security,
            Some(name@),
            "unpinned-image-tag"@,
            "Image '"@ + image@ + "' uses :latest or no tag \u{2014} builds are non-deterministic"@,
            "Pin to a specific version (e.g., node:20-alpine) or use SHA256 digest"@,
        ),
    );
    if !crate::text::contains_char(image.as_str(), ':') || ends_with(image.as_str(), ":latest") {
        let msg = concat3("Image '", image.as_str(), "' uses :latest or no tag \u{2014} builds are non-deterministic");
        push_finding(
            &mut out,
            finding(
                Severity::Warning,
                Category::Security,
                Some(name),
                "unpinned-image-tag",
                msg,
                "Pin to a specific version (e.g., node:20-alpine) or use SHA256 digest",
            ),
        );
    }
    assert(finding_views(out@) =~= first);
    let ghost mid = finding_views(out@);
    if (starts_with(image.as_str(), "node:") || starts_with(image.as_str(), "python:")
        || starts_with(image.as_str(), "ruby:")) && !contains(image.as_str(), "alpine") && !contains(
        image.as_str(),
        "slim",
    ) && !contains(image.as_str(), "distroless") {
        let msg = concat3("Image '", image.as_str(), "' is a full OS image \u{2014} larger attack surface and slower pulls");
        push_finding(
            &mut out,
            finding(
                Severity::Info,
                Category::Performance,
                Some(name),
                "large-base-image",
                msg,
                "Use alpine or slim variant (e.g., node:20-alpine) for smaller images",
            ),
        );
    }
    assert(finding_views(out@) =~= image_tag_findings(name@, job@));
    out
}

/// Whether the stage is `build` or `deploy`.
pub open spec fn build_or_deploy(stage: Seq<char>) -> bool {
    stage == "build"@ || stage == "deploy"@
}

pub open spec fn timeout_findings(name: Seq<char>, j: JobView) -> Seq<FindingView> {
    when_holds(
        j.timeout is None && build_or_deploy(j.stage),
        fv(
            Severity::Info,
            Category::BestPractice,
            Some(name),
            "missing-timeout"@,
            "Job '"@ + name + "' has no timeout \u{2014} could hang indefinitely"@,
            "Add timeout: (e.g., timeout: 30m) to prevent stuck jobs"@,
        ),
    )
}

fn check_missing_timeout(name: &str, job: &Job) -> (r: Vec<Finding>)
    ensures
        finding_views(r@) == timeout_findings(name@, job@),
{
    let mut out: Vec<Finding> = Vec::new();
    if job.timeout.is_none() && (str_eq(job.stage.as_str(), "build") || str_eq(job.stage.as_str(), "deploy")) {
        let msg = concat3("Job '", name, "' has no timeout \u{2014} could hang indefinitely");
        push_finding(
            &mut out,
            finding(
                Severity::Info,
                Category::BestPractice,
                Some(name),
                "missing-timeout",
                msg,
                "Add timeout: (e.g., timeout: 30m) to prevent stuck jobs",
            ),
        );
    }
    assert(finding_views(out@) =~= timeout_findings(name@, job@));
    out
}

pub open spec fn retry_findings(name: Seq<char>, j: JobView) -> Seq<FindingView> {
    when_holds(
        j.retry is None && build_or_deploy(j.stage),
        fv(
            Severity::Info,
            Category::BestPractice,
            Some(name),
            "missing-retry"@,
            "Job '"@ + name + "' has no retry \u{2014} transient failures will stop the pipeline"@,
            "Add retry: {max: 2, when: [runner_system_failure]} for resilience"@,
        ),
    )
}

fn check_missing_retry(name: &str, job: &Job) -> (r: Vec<Finding>)
    ensures
        finding_views(r@) == retry_findings(name@, job@),
{
    let mut out: Vec<Finding> = Vec::new();
    if job.retry.is_none() && (str_eq(job.stage.as_str(), "build") || str_eq(job.stage.as_str(), "deploy")) {
        let msg = concat3("Job '", name, "' has no retry \u{2014} transient failures will stop the pipeline");
        push_finding(
            &mut out,
            finding(
                Severity::Info,
                Category::BestPractice,
                Some(name),
                "missing-retry",
                msg,
                "Add retry: {max: 2, when: [runner_system_failure]} for resilience",
            ),
        );
    }
    assert(finding_views(out@) =~= retry_findings(name@, job@));
    out
}

/// Whether a lowercased script installs dependencies.
pub open spec fn installs_deps(t: Seq<char>) -> bool {
    contains_seq(t, "npm ci"@) || contains_seq(t, "npm install"@) || contains_seq(t, "yarn install"@)
        || contains_seq(t, "pnpm install"@) || contains_seq(t, "pip install"@) || contains_seq(
        t,
        "bundle install"@,
    ) || contains_seq(t, "cargo build"@)
}

pub open spec fn cache_findings(name: Seq<char>, j: JobView) -> Seq<FindingView> {
    when_holds(
        j.cache is None && installs_deps(script_lower(j)),
        fv(
            Severity::Warning,
            Category::Performance,
            Some(name),
            "missing-cache"@,
            "Job '"@ + name + "' installs dependencies but has no cache"@,
            "Add cache: with key based on lockfile to speed up builds"@,
        ),
    )
}

fn lower_script(job: &Job) -> (r: String)
    ensures
        r@ == script_lower(job@),
{
    let s = join_strings(&job.script, " ");
    to_lowercase(s.as_str())
}

fn check_missing_cache(name: &str, job: &Job) -> (r: Vec<Finding>)
    ensures
        finding_views(r@) == cache_findings(name@, job@),
{
    let mut out: Vec<Finding> = Vec::new();
    if job.cache.is_none() {
        let t = lower_script(job);
        let s = t.as_str();
        if contains(s, "npm ci") || contains(s, "npm install") || contains(s, "yarn install")
            || contains(s, "pnpm install") || contains(s, "pip install") || contains(
            s,
            "bundle install",
        ) || contains(s, "cargo build") {
            let msg = concat3("Job '", name, "' installs dependencies but has no cache");
            push_finding(
                &mut out,
                finding(
                    Severity::Warning,
                    Category::Performance,
                    Some(name),
                    "missing-cache",
                    msg,
                    "Add cache: with key based on lockfile to speed up builds",
                ),
            );
        }
    }
    assert(finding_views(out@) =~= cache_findings(name@, job@));
    out
}

pub open spec fn interruptible_findings(name: Seq<char>, j: JobView) -> Seq<FindingView> {
    when_holds(
        j.interruptible is None && (j.stage == "test"@ || j.stage == "lint"@ || j.stage == "quality"@),
        fv(
            Severity::Info,
            Category::Performance,
            Some(name),
            "missing-interruptible"@,
            "Job '"@ + name + "' is not marked interruptible \u{2014} wastes resources on superseded MRs"@,
            "Add interruptible: true to test/lint jobs so they're canceled on new pushes"@,
        ),
    )
}

fn check_missing_interruptible(name: &str, job: &Job) -> (r: Vec<Finding>)
    ensures
        finding_views(r@) == interruptible_findings(name@, job@),
{
    let mut out: Vec<Finding> = Vec::new();
    let st = job.stage.as_str();
    if job.interruptible.is_none() && (str_eq(st, "test") || str_eq(st, "lint") || str_eq(st, "quality")) {
        let msg = concat3("Job '", name, "' is not marked interruptible \u{2014} wastes resources on superseded MRs");
        push_finding(
            &mut out,
            finding(
                Severity::Info,
                Category::Performance,
                Some(name),
                "missing-interruptible",
                msg,
                "Add interruptible: true to test/lint jobs so they're canceled on new pushes",
            ),
        );
    }
    assert(finding_views(out@) =~= interruptible_findings(name@, job@));
    out
}

pub open spec fn deploy_rules_findings(name: Seq<char>, j: JobView) -> Seq<FindingView> {
    when_holds(
        contains_seq(j.stage, "deploy"@) && j.rules is None && j.when == When::OnSuccess,
        fv(
            Severity::Critical,
            Category::Security,
            Some(name),
            "deploy-without-rules"@,
            "Deploy job '"@ + name + "' has no rules: \u{2014} runs on every pipeline"@,
            "Add rules: to restrict deploys to specific branches (e.g., main only)"@,
        ),
    )
}

fn check_deploy_without_rules(name: &str, job: &Job) -> (r: Vec<Finding>)
    ensures
        finding_views(r@) == deploy_rules_findings(name@, job@),
{
    let mut out: Vec<Finding> = Vec::new();
    let on_success = match job.when {
        When::OnSuccess => true,
        _ => false,
    };
    if contains(job.stage.as_str(), "deploy") && job.rules.is_none() && on_success {
        let msg = concat3("Deploy job '", name, "' has no rules: \u{2014} runs on every pipeline");
        push_finding(
            &mut out,
            finding(
                Severity::Critical,
                Category::Security,
                Some(name),
                "deploy-without-rules",
                msg,
                "Add rules: to restrict deploys to specific branches (e.g., main only)",
            ),
        );
    }
    assert(finding_views(out@) =~= deploy_rules_findings(name@, job@));
    out
}

pub open spec fn deploy_failure_findings(name: Seq<char>, j: JobView) -> Seq<FindingView> {
    when_holds(
        contains_seq(j.stage, "deploy"@) && allows(j.allow_failure, 1),
        fv(
            Severity::Warning,
            Category::Security,
            Some(name),
            "deploy-allow-failure"@,
            "Deploy job '"@ + name + "' has allow_failure: true \u{2014} failed deploys won't block pipeline"@,
            "Remove allow_failure from deploy jobs to catch deployment failures"@,
        ),
    )
}

fn check_deploy_allow_failure(name: &str, job: &Job) -> (r: Vec<Finding>)
    ensures
        finding_views(r@) == deploy_failure_findings(name@, job@),
{
    let mut out: Vec<Finding> = Vec::new();
    if contains(job.stage.as_str(), "deploy") && job.allow_failure.is_allowed(1) {
        let msg = concat3("Deploy job '", name, "' has allow_failure: true \u{2014} failed deploys won't block pipeline");
        push_finding(
            &mut out,
            finding(
                Severity::Warning,
                Category::Security,
                Some(name),
                "deploy-allow-failure",
                msg,
                "Remove allow_failure from deploy jobs to catch deployment failures",
            ),
        );
    }
    assert(finding_views(out@) =~= deploy_failure_findings(name@, job@));
    out
}

/// Whether artifacts list paths without `expire_in`.
pub open spec fn kept_forever(a: Option<ArtifactView>) -> bool {
    match a {
        Some(p) => p.paths.len() > 0 && p.expire_in is None,
        None => false,
    }
}

pub open spec fn artifact_findings(name: Seq<char>, j: JobView) -> Seq<FindingView> {
    when_holds(
        kept_forever(j.artifacts),
        fv(
            Severity::Info,
            Category::Performance,
            Some(name),
            "artifact-no-expiry"@,
            "Job '"@ + name + "' artifacts have no expire_in \u{2014} use storage indefinitely"@,
            "Add expire_in: (e.g., 1 week) to automatically clean up old artifacts"@,
        ),
    )
}

fn check_artifact_expiry(name: &str, job: &Job) -> (r: Vec<Finding>)
    ensures
        finding_views(r@) == artifact_findings(name@, job@),
{
    let mut out: Vec<Finding> = Vec::new();
    match &job.artifacts {
        Some(a) => {
            if a.paths.len() > 0 && a.expire_in.is_none() {
                let msg = concat3("Job '", name, "' artifacts have no expire_in \u{2014} use storage indefinitely");
                push_finding(
                    &mut out,
                    finding(
                        Severity::Info,
                        Category::Performance,
                        Some(name),
                        "artifact-no-expiry",
                        msg,
                        "Add expire_in: (e.g., 1 week) to automatically clean up old artifacts",
                    ),
                );
            }
        },
        None => {},
    }
    assert(finding_views(out@) =~= artifact_findings(name@, job@));
    out
}

/// Whether an uppercased variable name looks like a secret's.
pub open spec fn secret_like(upper: Seq<char>) -> bool {
    contains_seq(upper, "PASSWORD"@) || contains_seq(upper, "SECRET"@) || contains_seq(upper, "TOKEN"@)
        || contains_seq(upper, "KEY"@) || contains_seq(upper, "CREDENTIAL"@) || contains_seq(
        upper,
        "AUTH"@,
    ) || contains_seq(upper, "PRIVATE"@) || contains_seq(upper, "API_KEY"@) || contains_seq(
        upper,
        "ACCESS_KEY"@,
    )
}

pub open spec fn secret_var_findings(name: Seq<char>, vars: Seq<(Seq<char>, VariableView)>) -> Seq<
    FindingView,
>
    decreases vars.len(),
{
    if vars.len() == 0 {
        Seq::empty()
    } else {
        let v = vars.last();
        secret_var_findings(name, vars.drop_last()) + when_holds(
            secret_like(uppercase_of(v.0)) && v.1.value.len() > 0 && !(v.1.value[0] == '$'),
            fv(
                Severity::Critical,
                Category::Security,
                Some(name),
                "hardcoded-secret"@,
                "Variable '"@ + v.0 + "' in job '"@ + name + "' looks like a hardcoded secret"@,
                "Move secrets to CI/CD variables (Settings > CI/CD > Variables) with masked and protected flags"@,
            ),
        )
    }
}

fn check_secret_in_variables(name: &str, job: &Job) -> (r: Vec<Finding>)
    ensures
        finding_views(r@) == secret_var_findings(name@, job@.variables),
{
    let ghost e = var_entries(job.variables);
    let n = vars_len(&job.variables);
    let mut out: Vec<Finding> = Vec::new();
    let mut i: usize = 0;
    assert(finding_views(out@) =~= secret_var_findings(name@, e.take(0)));
    while i < n
        invariant
            e == var_entries(job.variables),
            n == e.len(),
            i <= n,
            finding_views(out@) == secret_var_findings(name@, e.take(i as int)),
        decreases n - i,
    {
        let (var_name, var_val) = vars_get_index(&job.variables, i);
        assert(e.take(i + 1).drop_last() =~= e.take(i as int));
        assert(e.take(i + 1).last() == e[i as int]);
        let upper = to_uppercase(var_name.as_str());
        let u = upper.as_str();
        let value = var_val.value();
        let vv = crate::text::chars_of(value);
        let looks = contains(u, "PASSWORD") || contains(u, "SECRET") || contains(u, "TOKEN")
            || contains(u, "KEY") || contains(u, "CREDENTIAL") || contains(u, "AUTH") || contains(
            u,
            "PRIVATE",
        ) || contains(u, "API_KEY") || contains(u, "ACCESS_KEY");
        let ghost before = finding_views(out@);
        if looks && vv.len() > 0 && vv[0] != '$' {
            let a = concat3("Variable '", var_name.as_str(), "' in job '");
            let msg = concat3(a.as_str(), name, "' looks like a hardcoded secret");
            push_finding(
                &mut out,
                finding(
                    Severity::Critical,
                    Category::Security,
                    Some(name),
                    "hardcoded-secret",
                    msg,
                    "Move secrets to CI/CD variables (Settings > CI/CD > Variables) with masked and protected flags",
                ),
            );
        } else {
            assert(finding_views(out@) =~= before + Seq::<FindingView>::empty());
        }
        i = i + 1;
    }
    assert(e.take(n as int) =~= e);
    out
}

pub open spec fn dag_findings(
    name: Seq<char>,
    j: JobView,
    stages: Seq<Seq<char>>,
    job_count: nat,
) -> Seq<FindingView> {
    when_holds(
        j.needs is None && stages.len() > 0 && j.stage != stages[0] && job_count > 4
            && j.dependencies is Some,
        fv(
            Severity::Info,
            Category::Performance,
            Some(name),
            "use-needs-instead-of-dependencies"@,
            "Job '"@ + name + "' uses dependencies: but not needs: \u{2014} it waits for entire previous stage"@,
            "Replace dependencies: with needs: to start the job as soon as its dependencies finish"@,
        ),
    )
}

fn check_dag_optimization(name: &str, job: &Job, pipeline: &Pipeline) -> (r: Vec<Finding>)
    ensures
        finding_views(r@) == dag_findings(
            name@,
            job@,
            views(pipeline.stages@),
            job_entries(pipeline.jobs).len(),
        ),
{
    let mut out: Vec<Finding> = Vec::new();
    if job.needs.is_none() && pipeline.stages.len() > 0 {
        let first = pipeline.stages[0].as_str();
        if !str_eq(job.stage.as_str(), first) && jobs_len(&pipeline.jobs) > 4 {
            if job.dependencies.is_some() {
                let msg = concat3("Job '", name, "' uses dependencies: but not needs: \u{2014} it waits for entire previous stage");
                push_finding(
                    &mut out,
                    finding(
                        Severity::Info,
                        Category::Performance,
                        Some(name),
                        "use-needs-instead-of-dependencies",
                        msg,
                        "Replace dependencies: with needs: to start the job as soon as its dependencies finish",
                    ),
                );
            }
        }
    }
    assert(finding_views(out@) =~= dag_findings(
        name@,
        job@,
        views(pipeline.stages@),
        job_entries(pipeline.jobs).len(),
    ));
    out
}

/// Whether a lowercased script runs tests.
pub open spec fn runs_tests(t: Seq<char>) -> bool {
    contains_seq(t, "rspec"@) || contains_seq(t, "pytest"@) || contains_seq(t, "jest"@) || contains_seq(
        t,
        "vitest"@,
    ) || contains_seq(t, "npm test"@) || contains_seq(t, "cargo test"@) || contains_seq(t, "go test"@)
}

pub open spec fn coverage_findings(name: Seq<char>, j: JobView) -> Seq<FindingView> {
    when_holds(
        runs_tests(script_lower(j)) && j.coverage is None,
        fv(
            Severity::Info,
            Category::BestPractice,
            Some(name),
            "missing-coverage"@,
            "Job '"@ + name + "' runs tests but has no coverage: regex"@,
            "Add coverage: '/regex/' to extract coverage percentage from output"@,
        ),
    )
}

fn check_missing_coverage(name: &str, job: &Job) -> (r: Vec<Finding>)
    ensures
        finding_views(r@) == coverage_findings(name@, job@),
{
    let t = lower_script(job);
    let s = t.as_str();
    let tests = contains(s, "rspec") || contains(s, "pytest") || contains(s, "jest") || contains(s, "vitest")
        || contains(s, "npm test") || contains(s, "cargo test") || contains(s, "go test");
    let mut out: Vec<Finding> = Vec::new();
    if tests && job.coverage.is_none() {
        let msg = concat3("Job '", name, "' runs tests but has no coverage: regex");
        push_finding(
            &mut out,
            finding(
                Severity::Info,
                Category::BestPractice,
                Some(name),
                "missing-coverage",
                msg,
                "Add coverage: '/regex/' to extract coverage percentage from output",
            ),
        );
    }
    assert(finding_views(out@) =~= coverage_findings(name@, job@));
    out
}

/// Whether some service image name contains `dind`.
pub open spec fn uses_dind(j: JobView) -> bool {
    match j.services {
        Some(s) => exists|i: int| 0 <= i < s.len() && contains_seq(#[trigger] s[i].name, "dind"@),
        None => false,
    }
}

pub open spec fn dind_findings(name: Seq<char>, j: JobView) -> Seq<FindingView> {
    when_holds(
        uses_dind(j) && !has_key(j.variables, "DOCKER_TLS_VERIFY"@),
        fv(
            Severity::Warning,
            Category::Security,
            Some(name),
            "dind-without-tls"@,
            "Job '"@ + name + "' uses Docker-in-Docker without TLS"@,
            "Set DOCKER_TLS_VERIFY: '1' and DOCKER_CERT_PATH: /certs/client for secure DinD"@,
        ),
    )
}

fn check_dind_security(name: &str, job: &Job) -> (r: Vec<Finding>)
    ensures
        finding_views(r@) == dind_findings(name@, job@),
{
    let mut has_dind = false;
    match &job.services {
        Some(services) => {
            proof {
                crate::model::job::lemma_service_names(services@);
            }
            let ghost s = crate::model::job::service_names(services@);
            let mut i: usize = 0;
            while i < services.len()
                invariant
                    s == crate::model::job::service_names(services@),
                    i <= services@.len(),
                    has_dind == exists|k: int| 0 <= k < i && contains_seq(#[trigger] s[k], "dind"@),
                decreases services@.len() - i,
            {
                if contains(services[i].image_name(), "dind") {
                    assert(contains_seq(s[i as int], "dind"@));
                    has_dind = true;
                }
                i = i + 1;
            }
        },
        None => {},
    }
    let mut out: Vec<Finding> = Vec::new();
    if has_dind {
        let has_tls = match vars_index_of(&job.variables, "DOCKER_TLS_VERIFY") {
            Some(_) => true,
            None => false,
        };
        if !has_tls {
            let msg = concat3("Job '", name, "' uses Docker-in-Docker without TLS");
            push_finding(
                &mut out,
                finding(
                    Severity::Warning,
                    Category::Security,
                    Some(name),
                    "dind-without-tls",
                    msg,
                    "Set DOCKER_TLS_VERIFY: '1' and DOCKER_CERT_PATH: /certs/client for secure DinD",
                ),
            );
        }
    }
    assert(finding_views(out@) =~= dind_findings(name@, job@));
    out
}

/// Position of the first other job, by name, with the same script and no
/// `before_script`, or -1.
pub open spec fn first_duplicate(
    name: Seq<char>,
    j: JobView,
    jobs: Seq<(Seq<char>, JobView)>,
) -> int
    decreases jobs.len(),
{
    if jobs.len() == 0 {
        -1
    } else {
        let k = first_duplicate(name, j, jobs.drop_last());
        if k >= 0 {
            k
        } else if jobs.last().0 != name && jobs.last().1.script == j.script
            && jobs.last().1.before_script is None {
            jobs.len() - 1
        } else {
            -1
        }
    }
}

pub open spec fn duplicate_findings(
    name: Seq<char>,
    j: JobView,
    jobs: Seq<(Seq<char>, JobView)>,
) -> Seq<FindingView> {
    let k = first_duplicate(name, j, jobs);
    when_holds(
        j.before_script is None && j.script.len() > 3 && k >= 0,
        fv(
            Severity::Info,
            Category::BestPractice,
            Some(name),
            "duplicate-script"@,
            "Jobs '"@ + name + "' and '"@ + jobs[k].0 + "' have identical scripts"@,
            "Extract common scripts into a hidden job (.template) and use extends:"@,
        ),
    )
}

/// Whether two lists of strings hold the same strings.
fn same_strings(a: &Vec<String>, b: &Vec<String>) -> (r: bool)
    ensures
        r == (views(a@) == views(b@)),
{
    if a.len() != b.len() {
        assert(views(a@).len() != views(b@).len());
        return false;
    }
    let mut i: usize = 0;
    while i < a.len()
        invariant
            a@.len() == b@.len(),
            i <= a@.len(),
            forall|k: int| 0 <= k < i ==> #[trigger] a@[k]@ == b@[k]@,
        decreases a@.len() - i,
    {
        if !str_eq(a[i].as_str(), b[i].as_str()) {
            assert(views(a@)[i as int] != views(b@)[i as int]);
            return false;
        }
        i = i + 1;
    }
    assert(views(a@) =~= views(b@));
    true
}

fn check_duplicate_scripts(name: &str, job: &Job, pipeline: &Pipeline) -> (r: Vec<Finding>)
    ensures
        finding_views(r@) == duplicate_findings(name@, job@, job_entries(pipeline.jobs)),
{
    let ghost jobs = job_entries(pipeline.jobs);
    let mut out: Vec<Finding> = Vec::new();
    if job.before_script.is_none() && job.script.len() > 3 {
        let n = jobs_len(&pipeline.jobs);
        let mut i: usize = 0;
        while i < n
            invariant
                jobs == job_entries(pipeline.jobs),
                n == jobs.len(),
                i <= n,
                first_duplicate(name@, job@, jobs.take(i as int)) == -1,
                out@.len() == 0,
                job.before_script is None,
                job.script@.len() > 3,
            decreases n - i,
        {
            let (other_name, other) = jobs_get_index(&pipeline.jobs, i);
            assert(jobs.take(i + 1).drop_last() =~= jobs.take(i as int));
            assert(jobs.take(i + 1).last() == jobs[i as int]);
            if !str_eq(other_name.as_str(), name) && same_strings(&other.script, &job.script)
                && other.before_script.is_none() {
                proof {
                    assert(jobs[i as int].0 == other_name@);
                    assert(jobs[i as int].1 == other@);
                    assert(first_duplicate(name@, job@, jobs.take(i + 1)) == i);
                    lemma_first_duplicate_prefix(name@, job@, jobs, i + 1);
                }
                let msg = concat3("Jobs '", name, "' and '");
                let msg = concat3(msg.as_str(), other_name.as_str(), "' have identical scripts");
                push_finding(
                    &mut out,
                    finding(
                        Severity::Info,
                        Category::BestPractice,
                        Some(name),
                        "duplicate-script",
                        msg,
                        "Extract common scripts into a hidden job (.template) and use extends:",
                    ),
                );
                assert(finding_views(out@) =~= duplicate_findings(name@, job@, jobs));
                return out;
            }
            i = i + 1;
        }
        assert(jobs.take(n as int) =~= jobs);
    }
    assert(finding_views(out@) =~= duplicate_findings(name@, job@, jobs));
    out
}

/// A duplicate found in a prefix is the first in the whole list.
proof fn lemma_first_duplicate_prefix(
    name: Seq<char>,
    j: JobView,
    jobs: Seq<(Seq<char>, JobView)>,
    n: int,
)
    requires
        0 < n <= jobs.len(),
        first_duplicate(name, j, jobs.take(n)) >= 0,
    ensures
        first_duplicate(name, j, jobs) == first_duplicate(name, j, jobs.take(n)),
    decreases jobs.len() - n,
{
    if n < jobs.len() {
        assert(jobs.take(n + 1).drop_last() =~= jobs.take(n));
        lemma_first_duplicate_prefix(name, j, jobs, n + 1);
    } else {
        assert(jobs.take(n) =~= jobs);
    }
}

pub open spec fn manual_findings(name: Seq<char>, j: JobView) -> Seq<FindingView> {
    when_holds(
        j.when == When::Manual && contains_seq(j.stage, "deploy"@) && j.manual_confirmation is None,
        fv(
            Severity::Info,
            Category::BestPractice,
            Some(name),
            "manual-deploy-no-confirmation"@,
            "Manual deploy job '"@ + name + "' has no confirmation message"@,
            "Add manual_confirmation: 'Are you sure you want to deploy to production?'"@,
        ),
    )
}

fn check_manual_without_confirmation(name: &str, job: &Job) -> (r: Vec<Finding>)
    ensures
        finding_views(r@) == manual_findings(name@, job@),
{
    let manual = match job.when {
        When::Manual => true,
        _ => false,
    };
    let mut out: Vec<Finding> = Vec::new();
    if manual && contains(job.stage.as_str(), "deploy") && job.manual_confirmation.is_none() {
        let msg = concat3("Manual deploy job '", name, "' has no confirmation message");
        push_finding(
            &mut out,
            finding(
                Severity::Info,
                Category::BestPractice,
                Some(name),
                "manual-deploy-no-confirmation",
                msg,
                "Add manual_confirmation: 'Are you sure you want to deploy to production?'",
            ),
        );
    }
    assert(finding_views(out@) =~= manual_findings(name@, job@));
    out
}

pub open spec fn privileged_findings(name: Seq<char>, j: JobView) -> Seq<FindingView> {
    when_holds(
        contains_seq(script_text(j), "--privileged"@),
        fv(
            Severity::Critical,
            Category::Security,
            Some(name),
            "privileged-container"@,
            "Job '"@ + name + "' uses --privileged flag \u{2014} gives full host kernel capabilities"@,
            "Remove --privileged. Use --cap-add for specific capabilities if needed"@,
        ),
    )
}

fn check_privileged_container(name: &str, job: &Job) -> (r: Vec<Finding>)
    ensures
        finding_views(r@) == privileged_findings(name@, job@),
{
    let t = join_strings(&job.script, " ");
    let mut out: Vec<Finding> = Vec::new();
    if contains(t.as_str(), "--privileged") {
        let msg = concat3("Job '", name, "' uses --privileged flag \u{2014} gives full host kernel capabilities");
        push_finding(
            &mut out,
            finding(
                Severity::Critical,
                Category::Security,
                Some(name),
                "privileged-container",
                msg,
                "Remove --privileged. Use --cap-add for specific capabilities if needed",
            ),
        );
    }
    assert(finding_views(out@) =~= privileged_findings(name@, job@));
    out
}

pub open spec fn socket_findings(name: Seq<char>, j: JobView) -> Seq<FindingView> {
    when_holds(
        contains_seq(script_lower(j), "/var/run/docker.sock"@) || contains_seq(
            script_lower(j),
            "docker.sock"@,
        ),
        fv(
            Severity::Critical,
            Category::Security,
            Some(name),
            "docker-socket-mount"@,
            "Job '"@ + name + "' references docker.sock \u{2014} equivalent to root access on the host"@,
            "Use Docker-in-Docker (dind) service instead of mounting the Docker socket"@,
        ),
    )
}

fn check_docker_socket_mount(name: &str, job: &Job) -> (r: Vec<Finding>)
    ensures
        finding_views(r@) == socket_findings(name@, job@),
{
    let t = lower_script(job);
    let mut out: Vec<Finding> = Vec::new();
    if contains(t.as_str(), "/var/run/docker.sock") || contains(t.as_str(), "docker.sock") {
        let msg = concat3("Job '", name, "' references docker.sock \u{2014} equivalent to root access on the host");
        push_finding(
            &mut out,
            finding(
                Severity::Critical,
                Category::Security,
                Some(name),
                "docker-socket-mount",
                msg,
                "Use Docker-in-Docker (dind) service instead of mounting the Docker socket",
            ),
        );
    }
    assert(finding_views(out@) =~= socket_findings(name@, job@));
    out
}

pub open spec fn service_tag_findings(name: Seq<char>, services: Seq<Seq<char>>) -> Seq<FindingView>
    decreases services.len(),
{
    if services.len() == 0 {
        Seq::empty()
    } else {
        let s = services.last();
        service_tag_findings(name, services.drop_last()) + when_holds(
            ":latest"@.is_suffix_of(s) || (!s.contains(':') && !s.contains('@')),
            fv(
                Severity::Warning,
                Category::BestPractice,
                Some(name),
                "unpinned-service-tag"@,
                "Service '"@ + s + "' in job '"@ + name + "' uses :latest or no tag"@,
                "Pin service images to specific versions (e.g., postgres:16-alpine)"@,
            ),
        )
    }
}

pub open spec fn service_findings(name: Seq<char>, j: JobView) -> Seq<FindingView> {
    match j.services {
        Some(s) => service_tag_findings(name, view_names(s)),
        None => Seq::empty(),
    }
}

fn check_service_image_tags(name: &str, job: &Job) -> (r: Vec<Finding>)
    ensures
        finding_views(r@) == service_findings(name@, job@),
{
    let mut out: Vec<Finding> = Vec::new();
    match &job.services {
        Some(services) => {
            proof {
                crate::model::job::lemma_service_names(services@);
            }
            let ghost s = crate::model::job::service_names(services@);
            let mut i: usize = 0;
            assert(finding_views(out@) =~= service_tag_findings(name@, s.take(0)));
            while i < services.len()
                invariant
                    s == crate::model::job::service_names(services@),
                    i <= s.len(),
                    finding_views(out@) == service_tag_findings(name@, s.take(i as int)),
                decreases s.len() - i,
            {
                assert(s.take(i + 1).drop_last() =~= s.take(i as int));
                assert(s.take(i + 1).last() == s[i as int]);
                let svc = services[i].image_name();
                let ghost before = finding_views(out@);
                if ends_with(svc, ":latest") || (!crate::text::contains_char(svc, ':')
                    && !crate::text::contains_char(svc, '@')) {
                    let a = concat3("Service '", svc, "' in job '");
                    let msg = concat3(a.as_str(), name, "' uses :latest or no tag");
                    push_finding(
                        &mut out,
                        finding(
                            Severity::Warning,
                            Category::BestPractice,
                            Some(name),
                            "unpinned-service-tag",
                            msg,
                            "Pin service images to specific versions (e.g., postgres:16-alpine)",
                        ),
                    );
                } else {
                    assert(finding_views(out@) =~= before + Seq::<FindingView>::empty());
                }
                i = i + 1;
            }
            assert(s.take(s.len() as int) =~= s);
        },
        None => {
            assert(finding_views(out@) =~= service_findings(name@, job@));
        },
    }
    out
}

/// Whether a lowercased image name looks like it holds credentials.
pub open spec fn suspicious_image(lower: Seq<char>) -> bool {
    contains_seq(lower, "password"@) || contains_seq(lower, "token"@) || contains_seq(lower, "secret"@)
        || contains_seq(lower, "oauth2:"@) || contains_seq(lower, "x-token"@)
}

pub open spec fn image_secret_findings(name: Seq<char>, j: JobView) -> Seq<FindingView> {
    when_holds(
        suspicious_image(lowercase_of(image_of(j))),
        fv(
            Severity::Critical,
            Category::Security,
            Some(name),
            "secret-in-image-name"@,
            "Job '"@ + name + "' image name may contain credentials: "@ + image_of(j),
            "Use Docker registry authentication instead of embedding credentials in image URLs"@,
        ),
    )
}

fn check_secrets_in_image(name: &str, job: &Job) -> (r: Vec<Finding>)
    ensures
        finding_views(r@) == image_secret_findings(name@, job@),
{
    let image = image_name_of(job);
    let lower = to_lowercase(image.as_str());
    let l = lower.as_str();
    let mut out: Vec<Finding> = Vec::new();
    if contains(l, "password") || contains(l, "token") || contains(l, "secret") || contains(l, "oauth2:")
        || contains(l, "x-token") {
        let a = concat3("Job '", name, "' image name may contain credentials: ");
        let msg = concat(a.as_str(), image.as_str());
        push_finding(
            &mut out,
            finding(
                Severity::Critical,
                Category::Security,
                Some(name),
                "secret-in-image-name",
                msg,
                "Use Docker registry authentication instead of embedding credentials in image URLs",
            ),
        );
    }
    assert(finding_views(out@) =~= image_secret_findings(name@, job@));
    out
}

// ---------------------------------------------------------------------------
// Variables and matrices
// ---------------------------------------------------------------------------
/// Global variables not reported when unused.
pub open spec fn skips_unused(key: Seq<char>) -> bool {
    "CI_"@.is_prefix_of(key) || "GITLAB_"@.is_prefix_of(key) || "DOCKER_"@.is_prefix_of(key)
        || "FF_"@.is_prefix_of(key)
}

pub open spec fn unused_findings(
    globals: Seq<(Seq<char>, VariableView)>,
    refs: Seq<Seq<char>>,
) -> Seq<FindingView>
    decreases globals.len(),
{
    if globals.len() == 0 {
        Seq::empty()
    } else {
        let k = globals.last().0;
        unused_findings(globals.drop_last(), refs) + when_holds(
            !skips_unused(k) && !refs.contains(k),
            fv(
                Severity::Info,
                Category::BestPractice,
                None,
                "unused-variable"@,
                "Global variable '"@ + k + "' is defined but never referenced"@,
                "Remove unused variables to reduce clutter and potential confusion"@,
            ),
        )
    }
}

fn check_unused_variables(pipeline: &Pipeline) -> (r: Vec<Finding>)
    ensures
        finding_views(r@) == unused_findings(
            var_entries(pipeline.variables),
            jobs_refs(job_entries(pipeline.jobs)),
        ),
{
    let ghost refs = jobs_refs(job_entries(pipeline.jobs));
    let referenced = crate::secrets::find_referenced_variables(pipeline);
    let ghost g = var_entries(pipeline.variables);
    let n = vars_len(&pipeline.variables);
    let mut out: Vec<Finding> = Vec::new();
    let mut i: usize = 0;
    assert(finding_views(out@) =~= unused_findings(g.take(0), refs));
    while i < n
        invariant
            g == var_entries(pipeline.variables),
            n == g.len(),
            i <= n,
            forall|y: Seq<char>| views(referenced@).contains(y) <==> refs.contains(y),
            finding_views(out@) == unused_findings(g.take(i as int), refs),
        decreases n - i,
    {
        let (key, _) = vars_get_index(&pipeline.variables, i);
        assert(g.take(i + 1).drop_last() =~= g.take(i as int));
        assert(g.take(i + 1).last() == g[i as int]);
        let k = key.as_str();
        let skip = starts_with(k, "CI_") || starts_with(k, "GITLAB_") || starts_with(k, "DOCKER_")
            || starts_with(k, "FF_");
        let ghost before = finding_views(out@);
        if !skip && !crate::text::string_in(&referenced, k) {
            let msg = concat3("Global variable '", k, "' is defined but never referenced");
            push_finding(
                &mut out,
                finding(
                    Severity::Info,
                    Category::BestPractice,
                    None,
                    "unused-variable",
                    msg,
                    "Remove unused variables to reduce clutter and potential confusion",
                ),
            );
        } else {
            assert(finding_views(out@) =~= before + Seq::<FindingView>::empty());
        }
        i = i + 1;
    }
    assert(g.take(n as int) =~= g);
    out
}

/// The number of combinations of one matrix row: the product of its value counts.
pub open spec fn row_combinations(row: Seq<(Seq<char>, Seq<Seq<char>>)>) -> nat
    decreases row.len(),
{
    if row.len() == 0 {
        1
    } else {
        row_combinations(row.drop_last()) * row.last().1.len()
    }
}

/// The number of jobs a matrix expands to.
pub open spec fn matrix_total(rows: Seq<Seq<(Seq<char>, Seq<Seq<char>>)>>) -> nat
    decreases rows.len(),
{
    if rows.len() == 0 {
        0
    } else {
        matrix_total(rows.drop_last()) + row_combinations(rows.last())
    }
}

/// `n`, or `u64::MAX` when it is larger.
pub open spec fn capped(n: nat) -> nat {
    if n > u64::MAX {
        u64::MAX as nat
    } else {
        n
    }
}

pub open spec fn matrix_findings(name: Seq<char>, j: JobView) -> Seq<FindingView> {
    match j.parallel {
        Some(ParallelView::Matrix(rows)) => when_holds(
            matrix_total(rows) > 20,
            fv(
                Severity::Warning,
                Category::Performance,
                Some(name),
                "excessive-matrix"@,
                "Job '"@ + name + "' matrix expands to "@ + decimal(capped(matrix_total(rows)))
                    + " combinations"@,
                "Consider splitting into multiple jobs or reducing matrix dimensions to keep pipeline manageable"@,
            ),
        ),
        _ => Seq::empty(),
    }
}

pub open spec fn all_matrix_findings(jobs: Seq<(Seq<char>, JobView)>) -> Seq<FindingView>
    decreases jobs.len(),
{
    if jobs.len() == 0 {
        Seq::empty()
    } else {
        all_matrix_findings(jobs.drop_last()) + matrix_findings(jobs.last().0, jobs.last().1)
    }
}

proof fn lemma_mul_cap(a: nat, b: nat)
    ensures
        capped(capped(a) * b) == capped(a * b),
{
    if a > u64::MAX && b > 0 {
        assert(a * b >= a) by (nonlinear_arith)
            requires
                b > 0,
        ;
        assert(capped(a) * b >= capped(a)) by (nonlinear_arith)
            requires
                b > 0,
        ;
    } else if b == 0 {
        assert(capped(a) * b == 0 && a * b == 0) by (nonlinear_arith)
            requires
                b == 0,
        ;
    }
}

/// The saturated combination count of a matrix.
fn matrix_combinations(matrix: &Vec<indexmap::IndexMap<String, crate::model::job::StringOrVec>>) -> (r: u64)
    ensures
        r == capped(matrix_total(crate::model::job::matrix_rows(matrix@))),
{
    let ghost rows = crate::model::job::matrix_rows(matrix@);
    let mut total: u64 = 0;
    let mut i: usize = 0;
    assert(rows.take(0) =~= Seq::<Seq<(Seq<char>, Seq<Seq<char>>)>>::empty());
    while i < matrix.len()
        invariant
            rows == crate::model::job::matrix_rows(matrix@),
            i <= matrix@.len(),
            total == capped(matrix_total(rows.take(i as int))),
        decreases matrix@.len() - i,
    {
        let ghost row = crate::collections::matrix_entries(matrix@[i as int]);
        assert(rows[i as int] == row);
        let n = crate::collections::matrix_len(&matrix[i]);
        let mut prod: u64 = 1;
        let mut k: usize = 0;
        assert(row.take(0) =~= Seq::<(Seq<char>, Seq<Seq<char>>)>::empty());
        while k < n
            invariant
                i < matrix@.len(),
                row == crate::collections::matrix_entries(matrix@[i as int]),
                n == row.len(),
                k <= n,
                prod == capped(row_combinations(row.take(k as int))),
            decreases n - k,
        {
            let (_, v) = crate::collections::matrix_get_index(&matrix[i], k);
            let len: usize = match v {
                crate::model::job::StringOrVec::Single(_) => 1,
                crate::model::job::StringOrVec::Multiple(items) => items.len(),
            };
            assert(len == row[k as int].1.len());
            assert(row.take(k + 1).drop_last() =~= row.take(k as int));
            assert(row.take(k + 1).last() == row[k as int]);
            proof {
                lemma_mul_cap(row_combinations(row.take(k as int)), len as nat);
            }
            prod = match prod.checked_mul(len as u64) {
                Some(x) => x,
                None => u64::MAX,
            };
            k = k + 1;
        }
        assert(row.take(n as int) =~= row);
        assert(rows.take(i + 1).drop_last() =~= rows.take(i as int));
        assert(rows.take(i + 1).last() == rows[i as int]);
        total = match total.checked_add(prod) {
            Some(x) => x,
            None => u64::MAX,
        };
        i = i + 1;
    }
    assert(rows.take(matrix@.len() as int) =~= rows);
    total
}

fn check_matrix(name: &str, job: &Job) -> (r: Vec<Finding>)
    ensures
        finding_views(r@) == matrix_findings(name@, job@),
{
    let mut out: Vec<Finding> = Vec::new();
    match &job.parallel {
        Some(crate::model::job::ParallelConfig::Matrix { matrix }) => {
            let total = matrix_combinations(matrix);
            if total > 20 {
                let c = u64_to_string(total);
                let a = concat3("Job '", name, "' matrix expands to ");
                let msg = concat3(a.as_str(), c.as_str(), " combinations");
                push_finding(
                    &mut out,
                    finding(
                        Severity::Warning,
                        Category::Performance,
                        Some(name),
                        "excessive-matrix",
                        msg,
                        "Consider splitting into multiple jobs or reducing matrix dimensions to keep pipeline manageable",
                    ),
                );
            }
        },
        _ => {},
    }
    assert(finding_views(out@) =~= matrix_findings(name@, job@));
    out
}

fn check_excessive_matrix(pipeline: &Pipeline) -> (r: Vec<Finding>)
    ensures
        finding_views(r@) == all_matrix_findings(job_entries(pipeline.jobs)),
{
    let ghost jobs = job_entries(pipeline.jobs);
    let n = jobs_len(&pipeline.jobs);
    let mut out: Vec<Finding> = Vec::new();
    let mut i: usize = 0;
    assert(finding_views(out@) =~= all_matrix_findings(jobs.take(0)));
    while i < n
        invariant
            jobs == job_entries(pipeline.jobs),
            n == jobs.len(),
            i <= n,
            finding_views(out@) == all_matrix_findings(jobs.take(i as int)),
        decreases n - i,
    {
        let (name, job) = jobs_get_index(&pipeline.jobs, i);
        assert(jobs.take(i + 1).drop_last() =~= jobs.take(i as int));
        assert(jobs.take(i + 1).last() == jobs[i as int]);
        let more = check_matrix(name.as_str(), job);
        append_findings(&mut out, more);
        i = i + 1;
    }
    assert(jobs.take(n as int) =~= jobs);
    out
}

// ---------------------------------------------------------------------------
// The analysis
// ---------------------------------------------------------------------------
/// Every finding of one job, check after check.
pub open spec fn job_findings(
    name: Seq<char>,
    j: JobView,
    stages: Seq<Seq<char>>,
    jobs: Seq<(Seq<char>, JobView)>,
) -> Seq<FindingView> {
    image_tag_findings(name, j) + timeout_findings(name, j) + retry_findings(name, j)
        + cache_findings(name, j) + interruptible_findings(name, j) + deploy_rules_findings(name, j)
        + deploy_failure_findings(name, j) + artifact_findings(name, j) + secret_var_findings(
        name,
        j.variables,
    ) + dag_findings(name, j, stages, jobs.len()) + coverage_findings(name, j) + dind_findings(
        name,
        j,
    ) + duplicate_findings(name, j, jobs) + manual_findings(name, j) + privileged_findings(name, j)
        + socket_findings(name, j) + service_findings(name, j) + image_secret_findings(name, j)
}

/// The findings of the jobs `done`, in order, each against the whole pipeline.
pub open spec fn jobs_findings(
    done: Seq<(Seq<char>, JobView)>,
    stages: Seq<Seq<char>>,
    jobs: Seq<(Seq<char>, JobView)>,
) -> Seq<FindingView>
    decreases done.len(),
{
    if done.len() == 0 {
        Seq::empty()
    } else {
        jobs_findings(done.drop_last(), stages, jobs) + job_findings(
            done.last().0,
            done.last().1,
            stages,
            jobs,
        )
    }
}

/// Every finding, in the order the checks make them.
pub open spec fn raw_findings(
    has_workflow: bool,
    stages: Seq<Seq<char>>,
    globals: Seq<(Seq<char>, VariableView)>,
    jobs: Seq<(Seq<char>, JobView)>,
) -> Seq<FindingView> {
    workflow_findings(has_workflow) + stages_findings(jobs) + jobs_findings(jobs, stages, jobs)
        + unused_findings(globals, jobs_refs(jobs)) + all_matrix_findings(jobs)
}

/// The findings of one severity, in order.
pub open spec fn of_severity(f: Seq<FindingView>, s: Severity) -> Seq<FindingView>
    decreases f.len(),
{
    if f.len() == 0 {
        Seq::empty()
    } else {
        of_severity(f.drop_last(), s) + if f.last().severity == s {
            seq![f.last()]
        } else {
            Seq::empty()
        }
    }
}

/// Findings ordered by severity, critical first, keeping their order within each
/// severity (a stable sort).
pub open spec fn by_severity(f: Seq<FindingView>) -> Seq<FindingView> {
    of_severity(f, Severity::Critical) + of_severity(f, Severity::Warning) + of_severity(
        f,
        Severity::Info,
    )
}

/// The findings of one severity among `v`, in order.
fn select_severity(v: &Vec<Finding>, s: Severity) -> (r: Vec<Finding>)
    ensures
        finding_views(r@) == of_severity(finding_views(v@), s),
{
    let ghost fvs = finding_views(v@);
    let mut out: Vec<Finding> = Vec::new();
    let mut i: usize = 0;
    assert(finding_views(out@) =~= of_severity(fvs.take(0), s));
    while i < v.len()
        invariant
            fvs == finding_views(v@),
            i <= v@.len(),
            finding_views(out@) == of_severity(fvs.take(i as int), s),
        decreases v@.len() - i,
    {
        assert(fvs.take(i + 1).drop_last() =~= fvs.take(i as int));
        assert(fvs.take(i + 1).last() == v@[i as int]@);
        let ghost before = finding_views(out@);
        if v[i].severity == s {
            push_finding(&mut out, v[i].clone());
        } else {
            assert(finding_views(out@) =~= before + Seq::<FindingView>::empty());
        }
        i = i + 1;
    }
    assert(fvs.take(v@.len() as int) =~= fvs);
    out
}

/// Run every check on a pipeline: the pipeline-wide ones, those of each job in order,
/// then the unused-variable and matrix checks; findings come critical first, then
/// warnings, then infos, each group in the order the checks made them.
pub fn analyze(pipeline: &Pipeline) -> (r: Vec<Finding>)
    ensures
        finding_views(r@) == by_severity(
            raw_findings(
                pipeline.workflow is Some,
                views(pipeline.stages@),
                var_entries(pipeline.variables),
                job_entries(pipeline.jobs),
            ),
        ),
{
    let ghost jobs = job_entries(pipeline.jobs);
    let ghost stages = views(pipeline.stages@);
    let mut findings = check_workflow_rules(pipeline);
    append_findings(&mut findings, check_stages_optimization(pipeline));
    let ghost head = finding_views(findings@);
    let n = jobs_len(&pipeline.jobs);
    let mut i: usize = 0;
    assert(jobs_findings(jobs.take(0), stages, jobs) =~= Seq::<FindingView>::empty());
    assert(finding_views(findings@) =~= head + jobs_findings(jobs.take(0), stages, jobs));
    while i < n
        invariant
            jobs == job_entries(pipeline.jobs),
            stages == views(pipeline.stages@),
            n == jobs.len(),
            i <= n,
            finding_views(findings@) == head + jobs_findings(jobs.take(i as int), stages, jobs),
        decreases n - i,
    {
        let (name, job) = jobs_get_index(&pipeline.jobs, i);
        let nm = name.as_str();
        assert(jobs.take(i + 1).drop_last() =~= jobs.take(i as int));
        assert(jobs.take(i + 1).last() == jobs[i as int]);
        let ghost before = finding_views(findings@);
        let mut f: Vec<Finding> = Vec::new();
        append_findings(&mut f, check_image_tag(nm, job));
        append_findings(&mut f, check_missing_timeout(nm, job));
        append_findings(&mut f, check_missing_retry(nm, job));
        append_findings(&mut f, check_missing_cache(nm, job));
        append_findings(&mut f, check_missing_interruptible(nm, job));
        append_findings(&mut f, check_deploy_without_rules(nm, job));
        append_findings(&mut f, check_deploy_allow_failure(nm, job));
        append_findings(&mut f, check_artifact_expiry(nm, job));
        append_findings(&mut f, check_secret_in_variables(nm, job));
        append_findings(&mut f, check_dag_optimization(nm, job, pipeline));
        append_findings(&mut f, check_missing_coverage(nm, job));
        append_findings(&mut f, check_dind_security(nm, job));
        append_findings(&mut f, check_duplicate_scripts(nm, job, pipeline));
        append_findings(&mut f, check_manual_without_confirmation(nm, job));
        append_findings(&mut f, check_privileged_container(nm, job));
        append_findings(&mut f, check_docker_socket_mount(nm, job));
        append_findings(&mut f, check_service_image_tags(nm, job));
        append_findings(&mut f, check_secrets_in_image(nm, job));
        assert(finding_views(f@) =~= job_findings(name@, job@, stages, jobs));
        append_findings(&mut findings, f);
        assert(finding_views(findings@) =~= head + jobs_findings(jobs.take(i + 1), stages, jobs));
        i = i + 1;
    }
    assert(jobs.take(n as int) =~= jobs);
    append_findings(&mut findings, check_unused_variables(pipeline));
    append_findings(&mut findings, check_excessive_matrix(pipeline));
    let ghost all = finding_views(findings@);
    assert(all =~= raw_findings(
        pipeline.workflow is Some,
        stages,
        var_entries(pipeline.variables),
        jobs,
    ));
    let mut sorted = select_severity(&findings, Severity::Critical);
    append_findings(&mut sorted, select_severity(&findings, Severity::Warning));
    append_findings(&mut sorted, select_severity(&findings, Severity::Info));
    sorted
}

} // verus!
