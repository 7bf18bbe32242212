//! What a job run decides before and around its container: whether a manual job runs,
//! its image, variables and commands, which secrets are mounted, and where its files go.
use vstd::prelude::*;

use indexmap::IndexMap;

use crate::collections::{
    entries_insert, key_index, lemma_key_index_bounds, str_entries, strs_get_index, strs_index_of,
    strs_insert, strs_len, strs_new, var_entries,
};
use crate::config::{Config, ManualMode};
use crate::model::job::{Job, JobView};
use crate::model::variables::{expand_spec, expand_variables, merge_spec, merge_variables, Variables, VariableView};
use crate::paths::{join_path, path_join};
use crate::secrets::{masked, SecretMasker};
use crate::text::{concat, concat3, owned, str_eq, trim, trim_spec, views};

verus! {

/// Whether an answer to the manual-job prompt approves: `y` or `Y` once trimmed.
pub open spec fn approves(answer: Seq<char>) -> bool {
    trim_spec(answer) == seq!['y'] || trim_spec(answer) == seq!['Y']
}

/// Whether a manual job runs: always with `--approve-manual`, never with
/// `--skip-manual`, else when the user's answer approves (no answer does not).
pub open spec fn manual_runs(mode: ManualMode, answer: Option<Seq<char>>) -> bool {
    match mode {
        ManualMode::Approve => true,
        ManualMode::Skip => false,
        ManualMode::Prompt => match answer {
            Some(a) => approves(a),
            None => false,
        },
    }
}

pub fn manual_approved(mode: ManualMode, answer: Option<&str>) -> (r: bool)
    ensures
        r == manual_runs(
            mode,
            match answer {
                Some(a) => Some(a@),
                None => None,
            },
        ),
{
    match mode {
        ManualMode::Approve => true,
        ManualMode::Skip => false,
        ManualMode::Prompt => match answer {
            Some(a) => {
                let t = trim(a);
                proof {
                    reveal_strlit("y");
                    reveal_strlit("Y");
                    assert("y"@ =~= seq!['y']);
                    assert("Y"@ =~= seq!['Y']);
                }
                str_eq(t.as_str(), "y") || str_eq(t.as_str(), "Y")
            },
            None => false,
        },
    }
}

/// The message a manual job asks with: its `manual_confirmation`, or a default.
pub fn manual_prompt(job: &Job) -> (r: String)
    ensures
        r@ == match job@.manual_confirmation {
            Some(m) => m,
            None => "Manual job requires approval to run."@,
        },
{
    match &job.manual_confirmation {
        Some(m) => m.clone(),
        None => String::from_str("Manual job requires approval to run."),
    }
}

/// The lock file of a resource group under the project.
pub fn resource_lock_path(workdir: &str, group: &str) -> (r: String)
    ensures
        r@ == path_join(path_join(workdir@, ".lab/locks"@), group@ + ".lock"@),
{
    let dir = join_path(workdir, ".lab/locks");
    let file = concat(group, ".lock");
    join_path(dir.as_str(), file.as_str())
}

/// How many times a job tries to take its resource group's lock, a second apart,
/// before it runs without it.
pub const LOCK_ATTEMPTS: u32 = 60;

/// What a job does after trying to take its resource lock.
#[derive(Debug, Clone, Copy, PartialEq, Eq, Structural)]
pub enum LockStep {
    /// The lock is taken: run.
    Acquired,
    /// The lock is held elsewhere: wait a second (telling the user on the first try),
    /// then try again if `retry`, else run without the lock.
    Wait { announce: bool, retry: bool },
}

/// The step after attempt `attempt` (counted from 0) to take the lock, which `acquired`
/// tells whether it succeeded.
pub fn lock_step(attempt: u32, acquired: bool) -> (r: LockStep)
    requires
        attempt < LOCK_ATTEMPTS,
    ensures
        r == if acquired {
            LockStep::Acquired
        } else {
            LockStep::Wait { announce: attempt == 0, retry: attempt + 1 < LOCK_ATTEMPTS }
        },
{
    if acquired {
        LockStep::Acquired
    } else {
        LockStep::Wait { announce: attempt == 0, retry: attempt + 1 < LOCK_ATTEMPTS }
    }
}

/// A job's variables: predefined, then global, then the job's secrets, then its own,
/// each later source overriding the earlier ones.
pub fn job_variables(
    predefined: &Variables,
    globals: &Variables,
    secrets: &Variables,
    job: &Job,
) -> (r: Variables)
    ensures
        var_entries(r) == merge_spec(
            seq![
                var_entries(*predefined),
                var_entries(*globals),
                var_entries(*secrets),
                var_entries(job.variables),
            ],
        ),
{
    let sources: [&Variables; 4] = [predefined, globals, secrets, &job.variables];
    let r = merge_variables(&sources);
    assert(sources@.map_values(|m: &Variables| var_entries(*m)) =~= seq![
        var_entries(*predefined),
        var_entries(*globals),
        var_entries(*secrets),
        var_entries(job.variables),
    ]);
    r
}

/// The image a job runs in, before expansion: a platform override for the job, else
/// its image, else `alpine:latest`.
pub open spec fn raw_image(overrides: Seq<(Seq<char>, Seq<char>)>, name: Seq<char>, j: JobView) -> Seq<
    char,
> {
    if key_index(overrides, name) >= 0 {
        overrides[key_index(overrides, name)].1
    } else {
        match j.image {
            Some(i) => i.name,
            None => "alpine:latest"@,
        }
    }
}

/// The image a job runs in, its variables expanded.
pub fn job_image(config: &Config, job_name: &str, job: &Job, vars: &Variables) -> (r: String)
    ensures
        r@ == expand_spec(
            raw_image(str_entries(config.platform_overrides), job_name@, job@),
            var_entries(*vars),
            0,
        ),
{
    let raw: String = match strs_index_of(&config.platform_overrides, job_name) {
        Some(i) => {
            proof {
                lemma_key_index_bounds(str_entries(config.platform_overrides), job_name@);
            }
            let (_, v) = strs_get_index(&config.platform_overrides, i);
            v.clone()
        },
        None => match &job.image {
            Some(img) => String::from_str(img.name()),
            None => String::from_str("alpine:latest"),
        },
    };
    expand_variables(raw.as_str(), vars)
}

/// Each command expanded with the variables, in order.
pub open spec fn expanded(cmds: Seq<Seq<char>>, vars: Seq<(Seq<char>, VariableView)>) -> Seq<
    Seq<char>,
> {
    cmds.map_values(|c: Seq<char>| expand_spec(c, vars, 0))
}

fn expand_all(out: &mut Vec<String>, cmds: &Vec<String>, vars: &Variables)
    ensures
        views(final(out)@) == views(old(out)@) + expanded(views(cmds@), var_entries(*vars)),
{
    let ghost start = views(out@);
    let ghost cv = views(cmds@);
    let mut i: usize = 0;
    while i < cmds.len()
        invariant
            cv == views(cmds@),
            i <= cmds@.len(),
            views(out@) == start + expanded(cv, var_entries(*vars)).take(i as int),
        decreases cmds@.len() - i,
    {
        let ghost before = views(out@);
        let e = expand_variables(cmds[i].as_str(), vars);
        out.push(e);
        assert(views(out@) =~= before.push(e@));
        assert(expanded(cv, var_entries(*vars)).take(i + 1) =~= expanded(cv, var_entries(*vars)).take(
            i as int,
        ).push(e@));
        i = i + 1;
    }
    assert(expanded(cv, var_entries(*vars)).take(cmds@.len() as int) =~= expanded(
        cv,
        var_entries(*vars),
    ));
}

/// The main commands of a job: its `before_script` then its `script`, expanded.
pub fn job_commands(job: &Job, vars: &Variables) -> (r: Vec<String>)
    ensures
        views(r@) == expanded(
            match job@.before_script {
                Some(b) => b,
                None => Seq::empty(),
            } + job@.script,
            var_entries(*vars),
        ),
{
    let mut out: Vec<String> = Vec::new();
    match &job.before_script {
        Some(b) => expand_all(&mut out, b, vars),
        None => {},
    }
    expand_all(&mut out, &job.script, vars);
    assert(views(out@) =~= expanded(
        match job@.before_script {
            Some(b) => b,
            None => Seq::empty(),
        } + job@.script,
        var_entries(*vars),
    ));
    out
}

/// The `after_script` commands of a job, expanded; none without `after_script`.
pub fn after_commands(job: &Job, vars: &Variables) -> (r: Vec<String>)
    ensures
        views(r@) == match job@.after_script {
            Some(a) => expanded(a, var_entries(*vars)),
            None => Seq::empty(),
        },
{
    let mut out: Vec<String> = Vec::new();
    match &job.after_script {
        Some(a) => expand_all(&mut out, a, vars),
        None => {},
    }
    assert(views(out@) =~= match job@.after_script {
        Some(a) => expanded(a, var_entries(*vars)),
        None => Seq::empty(),
    });
    out
}

/// Whether a job has services to start.
pub fn has_services(job: &Job) -> (r: bool)
    ensures
        r == match job@.services {
            Some(s) => s.len() > 0,
            None => false,
        },
{
    match &job.services {
        Some(s) => s.len() > 0,
        None => false,
    }
}

/// The lines of the secrets file mounted in a job's container: `export KEY='VALUE'` for
/// each environment entry whose value the masker changes, in order.
pub open spec fn secrets_env_lines(env: Seq<(Seq<char>, Seq<char>)>, masks: Seq<Seq<char>>) -> Seq<
    char,
>
    decreases env.len(),
{
    if env.len() == 0 {
        Seq::empty()
    } else {
        let (k, v) = env.last();
        secrets_env_lines(env.drop_last(), masks) + if masked(v, masks) != v {
            "export "@ + k + "='"@ + v + "'\n"@
        } else {
            Seq::empty()
        }
    }
}

/// The content of a job's secrets file.
pub fn secrets_env_content(env: &IndexMap<String, String>, masker: &SecretMasker) -> (r: String)
    ensures
        r@ == secrets_env_lines(str_entries(*env), masker.masks()),
{
    let ghost e = str_entries(*env);
    let n = strs_len(env);
    let mut content = String::new();
    let mut i: usize = 0;
    assert(secrets_env_lines(e.take(0), masker.masks()) =~= Seq::<char>::empty());
    while i < n
        invariant
            e == str_entries(*env),
            n == e.len(),
            i <= n,
            content@ == secrets_env_lines(e.take(i as int), masker.masks()),
        decreases n - i,
    {
        let (k, v) = strs_get_index(env, i);
        assert(e.take(i + 1).drop_last() =~= e.take(i as int));
        assert(e.take(i + 1).last() == e[i as int]);
        let m = masker.mask(v.as_str());
        if !str_eq(m.as_str(), v.as_str()) {
            content.append("export ");
            content.append(k.as_str());
            content.append("='");
            content.append(v.as_str());
            content.append("'\n");
        }
        i = i + 1;
    }
    assert(e.take(n as int) =~= e);
    content
}

/// The environment a job's container is given: the entries whose value the masker
/// leaves unchanged, inserted in order (secret values reach the job through its secrets
/// file only).
pub open spec fn public_env(env: Seq<(Seq<char>, Seq<char>)>, masks: Seq<Seq<char>>) -> Seq<
    (Seq<char>, Seq<char>),
>
    decreases env.len(),
{
    if env.len() == 0 {
        Seq::empty()
    } else {
        let prev = public_env(env.drop_last(), masks);
        let (k, v) = env.last();
        if masked(v, masks) == v {
            entries_insert(prev, k, v)
        } else {
            prev
        }
    }
}

/// The environment entries that are no secret, for the container and its commands.
pub fn env_without_secrets(env: &IndexMap<String, String>, masker: &SecretMasker) -> (r: IndexMap<
    String,
    String,
>)
    ensures
        str_entries(r) == public_env(str_entries(*env), masker.masks()),
{
    let ghost e = str_entries(*env);
    let n = strs_len(env);
    let mut out = strs_new();
    let mut i: usize = 0;
    assert(public_env(e.take(0), masker.masks()) =~= Seq::<(Seq<char>, Seq<char>)>::empty());
    while i < n
        invariant
            e == str_entries(*env),
            n == e.len(),
            i <= n,
            str_entries(out) == public_env(e.take(i as int), masker.masks()),
        decreases n - i,
    {
        let (k, v) = strs_get_index(env, i);
        assert(e.take(i + 1).drop_last() =~= e.take(i as int));
        assert(e.take(i + 1).last() == e[i as int]);
        let m = masker.mask(v.as_str());
        if str_eq(m.as_str(), v.as_str()) {
            strs_insert(&mut out, owned(k.as_str()), owned(v.as_str()));
        }
        i = i + 1;
    }
    assert(e.take(n as int) =~= e);
    out
}

/// The secrets file of a job under the project's temporary directory.
pub fn secrets_tmp_path(workdir: &str, job_name: &str) -> (r: String)
    ensures
        r@ == path_join(path_join(workdir@, ".lab/tmp"@), "secrets-"@ + job_name@ + ".env"@),
{
    let dir = join_path(workdir, ".lab/tmp");
    let file = concat3("secrets-", job_name, ".env");
    join_path(dir.as_str(), file.as_str())
}

/// The command that gives the workspace back to the host user.
pub fn chown_command(uid_gid: &str) -> (r: Vec<String>)
    ensures
        views(r@) == seq!["sh"@, "-c"@, "chown -R "@ + uid_gid@ + " /workspace 2>/dev/null || true"@],
{
    let mut v: Vec<String> = Vec::new();
    v.push(String::from_str("sh"));
    v.push(String::from_str("-c"));
    v.push(concat3("chown -R ", uid_gid, " /workspace 2>/dev/null || true"));
    assert(views(v@) =~= seq!["sh"@, "-c"@, "chown -R "@ + uid_gid@ + " /workspace 2>/dev/null || true"@]);
    v
}

} // verus!
