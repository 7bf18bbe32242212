//! The variables GitLab defines for every job, as a local run sets them.
use vstd::prelude::*;

use crate::collections::{entries_insert, var_entries, vars_insert, vars_new};
use crate::model::variables::{VariableValue, VariableView, Variables};
use crate::secrets::simple_view;
use crate::text::{concat, take_chars, trim, trim_spec};

verus! {

/// What a local run knows of the checkout: the project directory and its name, and
/// what `git` answered (`None` where it could not run).
pub struct LocalContext {
    pub project_dir: String,
    pub project_name: String,
    pub commit_sha: Option<String>,
    pub commit_branch: Option<String>,
    pub commit_message: Option<String>,
    pub before_sha: Option<String>,
}

/// A `git` answer trimmed, or `fallback` when `git` could not run.
pub open spec fn answer_or(a: Option<String>, fallback: Seq<char>) -> Seq<char> {
    match a {
        Some(s) => trim_spec(s@),
        None => fallback,
    }
}

/// The zero commit.
pub open spec fn zero_sha() -> Seq<char> {
    "0000000000000000000000000000000000000000"@
}

pub open spec fn sha_of(c: LocalContext) -> Seq<char> {
    answer_or(c.commit_sha, zero_sha())
}

pub open spec fn branch_of(c: LocalContext) -> Seq<char> {
    answer_or(c.commit_branch, "main"@)
}

pub open spec fn message_of(c: LocalContext) -> Seq<char> {
    answer_or(c.commit_message, ""@)
}

pub open spec fn before_sha_of(c: LocalContext) -> Seq<char> {
    answer_or(c.before_sha, zero_sha())
}

/// The first eight characters of the commit.
pub open spec fn short_sha(sha: Seq<char>) -> Seq<char> {
    if 8 < sha.len() {
        sha.take(8)
    } else {
        sha
    }
}

/// The variables set, in order, as (name, value).
pub open spec fn predefined_pairs(c: LocalContext, job: Seq<char>, stage: Seq<char>) -> Seq<
    (Seq<char>, Seq<char>),
> {
    seq![
        ("GITLAB_CI"@, "true"@),
        ("CI"@, "true"@),
        ("CI_LOCAL"@, "true"@),
        ("CI_SERVER"@, "yes"@),
        ("CI_PROJECT_NAME"@, c.project_name@),
        ("CI_PROJECT_DIR"@, c.project_dir@),
        ("CI_PROJECT_PATH"@, "local/"@ + c.project_name@),
        ("CI_PROJECT_NAMESPACE"@, "local"@),
        ("CI_COMMIT_SHA"@, sha_of(c)),
        ("CI_COMMIT_SHORT_SHA"@, short_sha(sha_of(c))),
        ("CI_COMMIT_BRANCH"@, branch_of(c)),
        ("CI_COMMIT_REF_NAME"@, branch_of(c)),
        ("CI_COMMIT_MESSAGE"@, message_of(c)),
        ("CI_COMMIT_BEFORE_SHA"@, before_sha_of(c)),
        ("CI_PIPELINE_ID"@, "0"@),
        ("CI_PIPELINE_SOURCE"@, "local"@),
        ("CI_JOB_NAME"@, job),
        ("CI_JOB_STAGE"@, stage),
        ("CI_JOB_ID"@, "0"@),
        ("CI_RUNNER_ID"@, "0"@),
        ("CI_RUNNER_DESCRIPTION"@, "lab-local"@),
        ("CI_DEFAULT_BRANCH"@, "main"@),
    ]
}

/// The pairs inserted in order into `s`, each value a simple variable.
pub open spec fn insert_pairs(
    s: Seq<(Seq<char>, VariableView)>,
    pairs: Seq<(Seq<char>, Seq<char>)>,
) -> Seq<(Seq<char>, VariableView)>
    decreases pairs.len(),
{
    if pairs.len() == 0 {
        s
    } else {
        entries_insert(
            insert_pairs(s, pairs.drop_last()),
            pairs.last().0,
            simple_view(pairs.last().1),
        )
    }
}

fn answer_or_exec(a: &Option<String>, fallback: &str) -> (r: String)
    ensures
        r@ == answer_or(*a, fallback@),
{
    match a {
        Some(s) => trim(s.as_str()),
        None => String::from_str(fallback),
    }
}

fn pair(k: &str, v: &str) -> (r: (String, String))
    ensures
        r.0@ == k@,
        r.1@ == v@,
{
    (String::from_str(k), String::from_str(v))
}

/// The variables GitLab predefines for a job, given what the checkout answered.
pub fn predefined_variables(ctx: &LocalContext, job_name: &str, stage: &str) -> (r: Variables)
    ensures
        var_entries(r) == insert_pairs(Seq::empty(), predefined_pairs(*ctx, job_name@, stage@)),
{
    let sha = answer_or_exec(&ctx.commit_sha, "0000000000000000000000000000000000000000");
    let branch = answer_or_exec(&ctx.commit_branch, "main");
    let message = answer_or_exec(&ctx.commit_message, "");
    let before = answer_or_exec(&ctx.before_sha, "0000000000000000000000000000000000000000");
    let short = take_chars(sha.as_str(), 8);
    let path = concat("local/", ctx.project_name.as_str());
    let mut pairs: Vec<(String, String)> = Vec::new();
    pairs.push(pair("GITLAB_CI", "true"));
    pairs.push(pair("CI", "true"));
    pairs.push(pair("CI_LOCAL", "true"));
    pairs.push(pair("CI_SERVER", "yes"));
    pairs.push(pair("CI_PROJECT_NAME", ctx.project_name.as_str()));
    pairs.push(pair("CI_PROJECT_DIR", ctx.project_dir.as_str()));
    pairs.push(pair("CI_PROJECT_PATH", path.as_str()));
    pairs.push(pair("CI_PROJECT_NAMESPACE", "local"));
    pairs.push(pair("CI_COMMIT_SHA", sha.as_str()));
    pairs.push(pair("CI_COMMIT_SHORT_SHA", short.as_str()));
    pairs.push(pair("CI_COMMIT_BRANCH", branch.as_str()));
    pairs.push(pair("CI_COMMIT_REF_NAME", branch.as_str()));
    pairs.push(pair("CI_COMMIT_MESSAGE", message.as_str()));
    pairs.push(pair("CI_COMMIT_BEFORE_SHA", before.as_str()));
    pairs.push(pair("CI_PIPELINE_ID", "0"));
    pairs.push(pair("CI_PIPELINE_SOURCE", "local"));
    pairs.push(pair("CI_JOB_NAME", job_name));
    pairs.push(pair("CI_JOB_STAGE", stage));
    pairs.push(pair("CI_JOB_ID", "0"));
    pairs.push(pair("CI_RUNNER_ID", "0"));
    pairs.push(pair("CI_RUNNER_DESCRIPTION", "lab-local"));
    pairs.push(pair("CI_DEFAULT_BRANCH", "main"));
    let ghost pv = pairs@.map_values(|p: (String, String)| (p.0@, p.1@));
    assert(pv =~= predefined_pairs(*ctx, job_name@, stage@));
    let mut vars = vars_new();
    let mut i: usize = 0;
    assert(pv.take(0) =~= Seq::<(Seq<char>, Seq<char>)>::empty());
    while i < pairs.len()
        invariant
            pv == pairs@.map_values(|p: (String, String)| (p.0@, p.1@)),
            i <= pairs@.len(),
            var_entries(vars) == insert_pairs(Seq::empty(), pv.take(i as int)),
        decreases pairs@.len() - i,
    {
        assert(pv.take(i + 1).drop_last() =~= pv.take(i as int));
        assert(pv.take(i + 1).last() == (pairs@[i as int].0@, pairs@[i as int].1@));
        vars_insert(&mut vars, pairs[i].0.clone(), VariableValue::Simple(pairs[i].1.clone()));
        i = i + 1;
    }
    assert(pv.take(pairs@.len() as int) =~= pv);
    vars
}

} // verus!
