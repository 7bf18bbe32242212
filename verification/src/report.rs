//! What the reports before and after a run say: the variables a job may lack, the
//! secrets a dry run shows, the tips for a failure, and the counts of a summary.
use vstd::prelude::*;

use crate::analyze::{Finding, Severity};
use crate::collections::{has_key, key_index, var_entries};
use crate::error::LabError;
use crate::model::job::{Job, JobView};
use crate::model::variables::{contains_var, opt_views, VariableView, Variables};
use crate::secrets::{opt_lines, references_in, text_refs};
use crate::text::{
    clone_strings, concat, concat3, contains, contains_seq, insert_sorted_unique, join_strings,
    joined, owned, sorted_strict, starts_with, str_eq, views,
};

verus! {

// ---------------------------------------------------------------------------
// Pre-flight check
// ---------------------------------------------------------------------------

/// Names the runner or the shell provides, which the pre-flight check never reports.
pub open spec fn system_name(name: Seq<char>) -> bool {
    ||| "CI_"@.is_prefix_of(name)
    ||| "GITLAB_"@.is_prefix_of(name)
    ||| "DOCKER_"@.is_prefix_of(name)
    ||| "HOME"@.is_prefix_of(name)
    ||| "PATH"@.is_prefix_of(name)
    ||| "USER"@.is_prefix_of(name)
    ||| "SHELL"@.is_prefix_of(name)
    ||| "PWD"@.is_prefix_of(name)
    ||| "TERM"@.is_prefix_of(name)
}

/// The scripts of a job, one command per line: `script`, then `before_script`, then
/// `after_script`.
pub open spec fn preflight_text(j: JobView) -> Seq<char> {
    joined(j.script + opt_lines(j.before_script) + opt_lines(j.after_script), "\n"@)
}

/// Whether the text assigns the name itself (`NAME=` or `export NAME=`).
pub open spec fn assigned_in(text: Seq<char>, name: Seq<char>) -> bool {
    contains_seq(text, name + "="@) || contains_seq(text, "export "@ + name + "="@)
}

/// Whether a referenced name counts as missing for the job.
pub open spec fn reportable(
    name: Seq<char>,
    j: JobView,
    globals: Seq<(Seq<char>, VariableView)>,
    text: Seq<char>,
) -> bool {
    &&& !system_name(name)
    &&& !has_key(globals, name)
    &&& !has_key(j.variables, name)
    &&& !assigned_in(text, name)
}

/// The reportable names among `refs`, each at its first occurrence, in order.
pub open spec fn first_reportable(
    refs: Seq<Seq<char>>,
    j: JobView,
    globals: Seq<(Seq<char>, VariableView)>,
    text: Seq<char>,
) -> Seq<Seq<char>>
    decreases refs.len(),
{
    if refs.len() == 0 {
        Seq::empty()
    } else {
        let prev = refs.drop_last();
        let acc = first_reportable(prev, j, globals, text);
        if !prev.contains(refs.last()) && reportable(refs.last(), j, globals, text) {
            acc.push(refs.last())
        } else {
            acc
        }
    }
}

/// The variables a job's scripts use that neither the pipeline, the job nor the
/// scripts define, in the order of their first use.
pub open spec fn preflight_missing(
    j: JobView,
    globals: Seq<(Seq<char>, VariableView)>,
) -> Seq<Seq<char>> {
    let text = preflight_text(j);
    first_reportable(text_refs(text), j, globals, text)
}

fn is_system_name(name: &str) -> (r: bool)
    ensures
        r == system_name(name@),
{
    starts_with(name, "CI_") || starts_with(name, "GITLAB_") || starts_with(name, "DOCKER_")
        || starts_with(name, "HOME") || starts_with(name, "PATH") || starts_with(name, "USER")
        || starts_with(name, "SHELL") || starts_with(name, "PWD") || starts_with(name, "TERM")
}

/// The lines of an optional script, copied.
fn lines_of(o: &Option<Vec<String>>) -> (r: Vec<String>)
    ensures
        views(r@) == opt_lines(opt_views(*o)),
{
    match o {
        Some(v) => clone_strings(v),
        None => Vec::new(),
    }
}

/// Whether `refs[i]` occurs among `refs[..i]`.
fn seen_before(refs: &Vec<String>, i: usize) -> (r: bool)
    requires
        i < refs@.len(),
    ensures
        r == views(refs@).take(i as int).contains(views(refs@)[i as int]),
{
    let mut k: usize = 0;
    while k < i
        invariant
            k <= i < refs@.len(),
            forall|a: int| 0 <= a < k ==> views(refs@)[a] != views(refs@)[i as int],
        decreases i - k,
    {
        if str_eq(refs[k].as_str(), refs[i].as_str()) {
            assert(views(refs@).take(i as int)[k as int] == views(refs@)[i as int]);
            return true;
        }
        k = k + 1;
    }
    proof {
        if views(refs@).take(i as int).contains(views(refs@)[i as int]) {
            let a = choose|a: int|
                0 <= a < i && views(refs@).take(i as int)[a] == views(refs@)[i as int];
            assert(views(refs@)[a] == views(refs@)[i as int]);
        }
    }
    false
}

/// The variables a job may lack before it runs: those its scripts reference that the
/// pipeline, the job and the scripts themselves do not define, nor the runner or shell
/// provides, in the order of their first use.
pub fn missing_variables(job: &Job, globals: &Variables) -> (r: Vec<String>)
    ensures
        views(r@) == preflight_missing(job@, var_entries(*globals)),
{
    let mut texts = clone_strings(&job.script);
    let mut before = lines_of(&job.before_script);
    let mut after = lines_of(&job.after_script);
    texts.append(&mut before);
    texts.append(&mut after);
    let combined = join_strings(&texts, "\n");
    proof {
        assert(views(texts@) =~= job@.script + opt_lines(job@.before_script) + opt_lines(
            job@.after_script,
        ));
    }
    let refs = references_in(combined.as_str());
    let ghost rv = views(refs@);
    let ghost g = var_entries(*globals);
    let ghost text = combined@;
    let mut out: Vec<String> = Vec::new();
    let mut i: usize = 0;
    assert(rv.take(0) =~= Seq::<Seq<char>>::empty());
    while i < refs.len()
        invariant
            i <= refs@.len(),
            rv == views(refs@),
            rv == text_refs(text),
            text == preflight_text(job@),
            text == combined@,
            g == var_entries(*globals),
            views(out@) == first_reportable(rv.take(i as int), job@, g, text),
        decreases refs.len() - i,
    {
        let name = refs[i].as_str();
        let seen = seen_before(&refs, i);
        let system = is_system_name(name);
        let global = contains_var(globals, name);
        let local = contains_var(&job.variables, name);
        let assign = concat(name, "=");
        let export = concat3("export ", name, "=");
        let assigned = contains(combined.as_str(), assign.as_str()) || contains(
            combined.as_str(),
            export.as_str(),
        );
        let keep = !seen && !system && !global && !local && !assigned;
        assert(assigned == assigned_in(text, name@));
        assert(global == has_key(g, name@));
        assert(local == has_key(job@.variables, name@));
        proof {
            assert(name@ == rv[i as int]);
            assert(rv.take(i + 1).drop_last() =~= rv.take(i as int));
            assert(rv.take(i + 1).last() == rv[i as int]);
            assert(keep == (!rv.take(i as int).contains(rv[i as int]) && reportable(
                rv[i as int],
                job@,
                g,
                text,
            )));
        }
        if keep {
            out.push(owned(name));
            proof {
                assert(views(out@) =~= first_reportable(rv.take(i as int), job@, g, text).push(
                    rv[i as int],
                ));
            }
        }
        i = i + 1;
    }
    assert(rv.take(refs@.len() as int) =~= rv);
    out
}

// ---------------------------------------------------------------------------
// Dry run
// ---------------------------------------------------------------------------

/// The text a dry run searches for secrets: the script joined by spaces, then the
/// `before_script` joined by spaces, with nothing between the two.
pub open spec fn dry_run_text(j: JobView) -> Seq<char> {
    joined(j.script, " "@) + joined(opt_lines(j.before_script), " "@)
}

/// Whether a name used by a job may be a secret: the pipeline and the job do not set
/// it, and it is not one of the runner's own.
pub open spec fn secret_candidate(
    name: Seq<char>,
    j: JobView,
    globals: Seq<(Seq<char>, VariableView)>,
) -> bool {
    &&& !has_key(globals, name)
    &&& !has_key(j.variables, name)
    &&& !"CI_"@.is_prefix_of(name)
    &&& !"GITLAB_"@.is_prefix_of(name)
}

/// The secrets a dry run lists for a job: those it uses that were loaded (first) and
/// those it uses that were not (second), each sorted, without repetition.
pub fn dry_run_secrets(job: &Job, globals: &Variables, secrets: &Variables) -> (r: (
    Vec<String>,
    Vec<String>,
))
    ensures
        sorted_strict(views(r.0@)),
        sorted_strict(views(r.1@)),
        forall|y: Seq<char>|
            #![trigger views(r.0@).contains(y)]
            views(r.0@).contains(y) <==> (text_refs(dry_run_text(job@)).contains(y)
                && secret_candidate(y, job@, var_entries(*globals)) && has_key(
                var_entries(*secrets),
                y,
            )),
        forall|y: Seq<char>|
            #![trigger views(r.1@).contains(y)]
            views(r.1@).contains(y) <==> (text_refs(dry_run_text(job@)).contains(y)
                && secret_candidate(y, job@, var_entries(*globals)) && !has_key(
                var_entries(*secrets),
                y,
            )),
{
    let script = join_strings(&job.script, " ");
    let before_lines = lines_of(&job.before_script);
    let before = join_strings(&before_lines, " ");
    let text = concat(script.as_str(), before.as_str());
    let refs = references_in(text.as_str());
    let ghost rv = views(refs@);
    let ghost g = var_entries(*globals);
    let ghost s = var_entries(*secrets);
    let mut needed: Vec<String> = Vec::new();
    let mut missing: Vec<String> = Vec::new();
    let mut i: usize = 0;
    while i < refs.len()
        invariant
            i <= refs@.len(),
            rv == views(refs@),
            rv == text_refs(dry_run_text(job@)),
            g == var_entries(*globals),
            s == var_entries(*secrets),
            sorted_strict(views(needed@)),
            sorted_strict(views(missing@)),
            forall|y: Seq<char>|
                #![trigger views(needed@).contains(y)]
                views(needed@).contains(y) <==> (rv.take(i as int).contains(y)
                    && secret_candidate(y, job@, g) && has_key(s, y)),
            forall|y: Seq<char>|
                #![trigger views(missing@).contains(y)]
                views(missing@).contains(y) <==> (rv.take(i as int).contains(y)
                    && secret_candidate(y, job@, g) && !has_key(s, y)),
        decreases refs.len() - i,
    {
        let name = refs[i].as_str();
        let candidate = !contains_var(globals, name) && !contains_var(&job.variables, name)
            && !starts_with(name, "CI_") && !starts_with(name, "GITLAB_");
        let ghost old_needed = views(needed@);
        let ghost old_missing = views(missing@);
        if candidate {
            if contains_var(secrets, name) {
                insert_sorted_unique(&mut needed, owned(name));
            } else {
                insert_sorted_unique(&mut missing, owned(name));
            }
        }
        proof {
            let t0 = rv.take(i as int);
            let t1 = rv.take(i + 1);
            assert forall|y: Seq<char>| t1.contains(y) <==> (t0.contains(y) || y == rv[i as int]) by {
                if t1.contains(y) {
                    let a = choose|a: int| 0 <= a < t1.len() && t1[a] == y;
                    if a < i {
                        assert(t0[a] == y);
                    }
                }
                if t0.contains(y) {
                    let a = choose|a: int| 0 <= a < t0.len() && t0[a] == y;
                    assert(t1[a] == y);
                }
                if y == rv[i as int] {
                    assert(t1[i as int] == y);
                }
            }
        }
        i = i + 1;
    }
    assert(rv.take(refs@.len() as int) =~= rv);
    (needed, missing)
}

// ---------------------------------------------------------------------------
// Failure tips
// ---------------------------------------------------------------------------

/// The tips (issue, fix) that a failed pipeline's error calls for.
pub open spec fn tips_for(err: LabError) -> Seq<(Seq<char>, Seq<char>)> {
    match err {
        LabError::ContainerFailed { code } => if code == 127 {
            seq![
                ("command not found"@,
                "the image may be missing required tools — check the job's image or before_script"@),
            ]
        } else if code == 126 {
            seq![
                ("permission denied"@,
                "script may not be executable — check file permissions or use `sh script.sh`"@),
            ]
        } else if code == 137 {
            seq![
                ("killed (OOM or timeout)"@,
                "container was killed — increase timeout or check memory usage"@),
            ]
        } else {
            Seq::empty()
        },
        LabError::Docker(msg) => if contains_seq(msg@, "No such image"@) || contains_seq(
            msg@,
            "not found"@,
        ) {
            seq![("image not found"@, "try --pull-policy always or check image name"@)]
        } else if contains_seq(msg@, "permission denied"@) || contains_seq(msg@, "connect"@) {
            seq![
                ("docker access error"@,
                "ensure Docker is running and your user is in the docker group"@),
            ]
        } else {
            Seq::empty()
        },
        LabError::Other(msg) => if contains_seq(msg@, "glab"@) {
            seq![("glab error"@, "ensure glab is installed and authenticated: glab auth login"@)]
        } else {
            Seq::empty()
        },
        _ => Seq::empty(),
    }
}

pub open spec fn pair_views(v: Seq<(String, String)>) -> Seq<(Seq<char>, Seq<char>)> {
    v.map_values(|p: (String, String)| (p.0@, p.1@))
}

fn one_tip(issue: &str, fix: &str) -> (r: Vec<(String, String)>)
    ensures
        pair_views(r@) == seq![(issue@, fix@)],
{
    let mut v = Vec::new();
    v.push((owned(issue), owned(fix)));
    proof {
        assert(pair_views(v@) =~= seq![(issue@, fix@)]);
    }
    v
}

/// Actionable tips for the error a pipeline failed with.
pub fn error_suggestions(err: &LabError) -> (r: Vec<(String, String)>)
    ensures
        pair_views(r@) == tips_for(*err),
{
    let none: Vec<(String, String)> = Vec::new();
    assert(pair_views(none@) =~= Seq::<(Seq<char>, Seq<char>)>::empty());
    match err {
        LabError::ContainerFailed { code } => if *code == 127 {
            one_tip(
                "command not found",
                "the image may be missing required tools — check the job's image or before_script",
            )
        } else if *code == 126 {
            one_tip(
                "permission denied",
                "script may not be executable — check file permissions or use `sh script.sh`",
            )
        } else if *code == 137 {
            one_tip(
                "killed (OOM or timeout)",
                "container was killed — increase timeout or check memory usage",
            )
        } else {
            none
        },
        LabError::Docker(msg) => if contains(msg.as_str(), "No such image") || contains(
            msg.as_str(),
            "not found",
        ) {
            one_tip("image not found", "try --pull-policy always or check image name")
        } else if contains(msg.as_str(), "permission denied") || contains(msg.as_str(), "connect") {
            one_tip(
                "docker access error",
                "ensure Docker is running and your user is in the docker group",
            )
        } else {
            none
        },
        LabError::Other(msg) => if contains(msg.as_str(), "glab") {
            one_tip("glab error", "ensure glab is installed and authenticated: glab auth login")
        } else {
            none
        },
        _ => none,
    }
}

// ---------------------------------------------------------------------------
// Counts
// ---------------------------------------------------------------------------

/// The number of findings of the given severity.
pub open spec fn severity_count(f: Seq<Finding>, s: Severity) -> nat
    decreases f.len(),
{
    if f.len() == 0 {
        0
    } else {
        severity_count(f.drop_last(), s) + if f.last().severity == s {
            1nat
        } else {
            0nat
        }
    }
}

proof fn lemma_severity_count_bound(f: Seq<Finding>, s: Severity)
    ensures
        severity_count(f, s) <= f.len(),
    decreases f.len(),
{
    if f.len() > 0 {
        lemma_severity_count_bound(f.drop_last(), s);
    }
}

/// How many findings have the given severity.
pub fn count_severity(findings: &Vec<Finding>, s: Severity) -> (r: usize)
    ensures
        r == severity_count(findings@, s),
{
    let mut n: usize = 0;
    let mut i: usize = 0;
    while i < findings.len()
        invariant
            i <= findings@.len(),
            n == severity_count(findings@.take(i as int), s),
        decreases findings.len() - i,
    {
        proof {
            assert(findings@.take(i + 1).drop_last() =~= findings@.take(i as int));
            lemma_severity_count_bound(findings@.take(i as int), s);
        }
        if findings[i].severity == s {
            n = n + 1;
        }
        i = i + 1;
    }
    assert(findings@.take(findings@.len() as int) =~= findings@);
    n
}

} // verus!
