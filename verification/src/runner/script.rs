//! What a job runs: its shell script, its shell, and the decisions taken around it.
use vstd::prelude::*;

use crate::error::LabError;
use crate::model::job::{ArtifactWhen, Job, Need, NeedView, RetryConfig};
use crate::text::{
    contains, contains_seq, decimal, lowercase_of, parse_u64, replace, replace_spec, split_whitespace,
    starts_with, str_eq, to_lowercase, trim, trim_spec, u64_parse_spec, u64_to_string, views,
    ws_words, clone_strings,
};

verus! {

// ---------------------------------------------------------------------------
// The shell script
// ---------------------------------------------------------------------------
/// The lines every script starts with: a git `safe.directory` config, SSH host keys
/// when an agent is forwarded, the mounted secrets, and the start time.
pub open spec fn script_prelude() -> Seq<char> {
    "echo '[safe]\n\tdirectory = *' > /tmp/.lab-gitconfig 2>/dev/null || true\n"@
        + "export GIT_CONFIG_GLOBAL=/tmp/.lab-gitconfig\n"@
        + "if [ -S \"$SSH_AUTH_SOCK\" ]; then command -v ssh >/dev/null 2>&1 || (apk add --no-cache openssh-client 2>/dev/null || apt-get install -yq openssh-client 2>/dev/null) >/dev/null 2>&1 || true; mkdir -p /root/.ssh 2>/dev/null; ssh-keyscan gitlab.com github.com bitbucket.org >> /root/.ssh/known_hosts 2>/dev/null || true; fi\n"@
        + "[ -f /run/secrets/env ] && . /run/secrets/env\n"@ + "_LAB_T0=$(date +%s)\n"@
}

/// The closing line: the total time.
pub open spec fn script_epilogue() -> Seq<char> {
    "_LAB_TF=$(date +%s); _LAB_TT=$((_LAB_TF - _LAB_T0)); printf '\\n\\033[1;32m  total: %dm %ds\\033[0m\\n' $((_LAB_TT / 60)) $((_LAB_TT % 60))\n"@
}

/// The lines for command `i` of `total`: echo it (single quotes escaped), note the
/// time, run it, and print how long it took.
pub open spec fn script_step(i: nat, total: nat, cmd: Seq<char>) -> Seq<char> {
    "printf '\\033[0;36m$ "@ + replace_spec(cmd, "'"@, "'\\''"@) + "\\033[0m\\n'\n"@ + "_LAB_S"@
        + decimal(i) + "=$(date +%s)\n"@ + cmd + "\n"@ + "_LAB_E"@ + decimal(i)
        + "=$(date +%s); _LAB_D"@ + decimal(i) + "=$((_LAB_E"@ + decimal(i) + " - _LAB_S"@
        + decimal(i) + ")); printf '\\033[2m  ["@ + decimal(i + 1) + "/"@ + decimal(total)
        + "] %dm %ds\\033[0m\\n' $((_LAB_D"@ + decimal(i) + " / 60)) $((_LAB_D"@ + decimal(i)
        + " % 60))\n"@
}

/// The steps for the first `k` commands.
pub open spec fn script_steps(cmds: Seq<Seq<char>>, k: nat) -> Seq<char>
    decreases k,
{
    if k == 0 {
        Seq::empty()
    } else {
        script_steps(cmds, (k - 1) as nat) + script_step((k - 1) as nat, cmds.len(), cmds[k - 1])
    }
}

fn append_str(s: &mut String, t: &str)
    ensures
        final(s)@ == old(s)@ + t@,
{
    s.append(t);
}

/// The text of one step (see `script_step`).
fn step_text(i: u64, total: &str, cmd: &str, Ghost(n): Ghost<nat>) -> (r: String)
    requires
        total@ == decimal(n),
        i < u64::MAX,
    ensures
        r@ == script_step(i as nat, n, cmd@),
{
    proof {
        reveal_strlit("'");
    }
    let escaped = replace(cmd, "'", "'\\''");
    let idx = u64_to_string(i);
    let step = u64_to_string(i + 1);
    let mut s = String::new();
    append_str(&mut s, "printf '\\033[0;36m$ ");
    append_str(&mut s, escaped.as_str());
    append_str(&mut s, "\\033[0m\\n'\n");
    append_str(&mut s, "_LAB_S");
    append_str(&mut s, idx.as_str());
    append_str(&mut s, "=$(date +%s)\n");
    append_str(&mut s, cmd);
    append_str(&mut s, "\n");
    append_str(&mut s, "_LAB_E");
    append_str(&mut s, idx.as_str());
    append_str(&mut s, "=$(date +%s); _LAB_D");
    append_str(&mut s, idx.as_str());
    append_str(&mut s, "=$((_LAB_E");
    append_str(&mut s, idx.as_str());
    append_str(&mut s, " - _LAB_S");
    append_str(&mut s, idx.as_str());
    append_str(&mut s, ")); printf '\\033[2m  [");
    append_str(&mut s, step.as_str());
    append_str(&mut s, "/");
    append_str(&mut s, total);
    append_str(&mut s, "] %dm %ds\\033[0m\\n' $((_LAB_D");
    append_str(&mut s, idx.as_str());
    append_str(&mut s, " / 60)) $((_LAB_D");
    append_str(&mut s, idx.as_str());
    append_str(&mut s, " % 60))\n");
    assert(s@ =~= script_step(i as nat, n, cmd@));
    s
}

/// Generate the shell script for a job's commands: each command is echoed before it
/// runs and timed after, as GitLab Runner does.
pub fn generate_shell_script(commands: &Vec<String>) -> (r: String)
    ensures
        r@ == script_prelude() + script_steps(views(commands@), commands@.len() as nat)
            + script_epilogue(),
{
    let mut script = String::new();
    append_str(&mut script, "echo '[safe]\n\tdirectory = *' > /tmp/.lab-gitconfig 2>/dev/null || true\n");
    append_str(&mut script, "export GIT_CONFIG_GLOBAL=/tmp/.lab-gitconfig\n");
    append_str(
        &mut script,
        "if [ -S \"$SSH_AUTH_SOCK\" ]; then command -v ssh >/dev/null 2>&1 || (apk add --no-cache openssh-client 2>/dev/null || apt-get install -yq openssh-client 2>/dev/null) >/dev/null 2>&1 || true; mkdir -p /root/.ssh 2>/dev/null; ssh-keyscan gitlab.com github.com bitbucket.org >> /root/.ssh/known_hosts 2>/dev/null || true; fi\n",
    );
    append_str(&mut script, "[ -f /run/secrets/env ] && . /run/secrets/env\n");
    append_str(&mut script, "_LAB_T0=$(date +%s)\n");
    let ghost cmds = views(commands@);
    assert(script@ =~= script_prelude() + script_steps(cmds, 0));
    let total = u64_to_string(commands.len() as u64);
    let mut i: usize = 0;
    while i < commands.len()
        invariant
            i <= commands@.len(),
            cmds == views(commands@),
            total@ == decimal(commands@.len() as nat),
            script@ == script_prelude() + script_steps(cmds, i as nat),
        decreases commands@.len() - i,
    {
        let cmd = commands[i].as_str();
        assert(cmds[i as int] == cmd@);
        let ghost before = script@;
        let step = step_text(i as u64, total.as_str(), cmd, Ghost(commands@.len() as nat));
        append_str(&mut script, step.as_str());
        assert(script@ =~= before + script_step(i as nat, cmds.len(), cmd@));
        i = i + 1;
    }
    append_str(
        &mut script,
        "_LAB_TF=$(date +%s); _LAB_TT=$((_LAB_TF - _LAB_T0)); printf '\\n\\033[1;32m  total: %dm %ds\\033[0m\\n' $((_LAB_TT / 60)) $((_LAB_TT % 60))\n",
    );
    script
}

/// The shell a script runs under: `bash -eo pipefail -c` when the container has bash,
/// else `sh -e -c`.
pub open spec fn shell_words(bash_available: bool) -> Seq<Seq<char>> {
    if bash_available {
        seq!["bash"@, "-eo"@, "pipefail"@, "-c"@]
    } else {
        seq!["sh"@, "-e"@, "-c"@]
    }
}

pub fn shell_command(bash_available: bool) -> (r: Vec<String>)
    ensures
        views(r@) == shell_words(bash_available),
{
    let mut v: Vec<String> = Vec::new();
    if bash_available {
        v.push(String::from_str("bash"));
        v.push(String::from_str("-eo"));
        v.push(String::from_str("pipefail"));
        v.push(String::from_str("-c"));
    } else {
        v.push(String::from_str("sh"));
        v.push(String::from_str("-e"));
        v.push(String::from_str("-c"));
    }
    assert(views(v@) =~= shell_words(bash_available));
    v
}

// ---------------------------------------------------------------------------
// Delays, retries and failures
// ---------------------------------------------------------------------------
/// `n * factor` as a `u64` computes it (modulo 2^64).
pub open spec fn times(n: int, factor: int) -> int {
    (n * factor) % 0x1_0000_0000_0000_0000
}

/// A compact delay: digits, optional spaces, and the unit letter `unit` at the end.
pub open spec fn compact_delay(t: Seq<char>, unit: char) -> Option<int> {
    if t.len() > 0 && t.last() == unit {
        u64_parse_spec(trim_spec(t.drop_last()))
    } else {
        None
    }
}

/// The seconds a `start_in:` value stands for: `"N unit"` with unit second(s)/s,
/// minute(s)/m or hour(s)/h; or `Ns`, `Nm`, `Nh`; or plain seconds. Case does not matter.
pub open spec fn delay_seconds(s: Seq<char>) -> Option<int> {
    let t = lowercase_of(trim_spec(s));
    let parts = ws_words(t);
    if parts.len() == 2 && u64_parse_spec(parts[0]) is Some {
        let n = u64_parse_spec(parts[0])->0;
        let u = parts[1];
        if u == "second"@ || u == "seconds"@ || u == "s"@ {
            Some(n)
        } else if u == "minute"@ || u == "minutes"@ || u == "m"@ {
            Some(times(n, 60))
        } else if u == "hour"@ || u == "hours"@ || u == "h"@ {
            Some(times(n, 3600))
        } else {
            None
        }
    } else if compact_delay(t, 's') is Some {
        compact_delay(t, 's')
    } else if compact_delay(t, 'm') is Some {
        Some(times(compact_delay(t, 'm')->0, 60))
    } else if compact_delay(t, 'h') is Some {
        Some(times(compact_delay(t, 'h')->0, 3600))
    } else {
        u64_parse_spec(t)
    }
}

fn compact_delay_value(t: &str, unit: char) -> (r: Option<u64>)
    ensures
        match compact_delay(t@, unit) {
            Some(n) => r matches Some(x) && x == n,
            None => r is None,
        },
{
    let n = t.unicode_len();
    if n > 0 && t.get_char(n - 1) == unit {
        let body = t.substring_char(0, n - 1);
        assert(body@ =~= t@.drop_last());
        let trimmed = trim(body);
        parse_u64(trimmed.as_str())
    } else {
        None
    }
}

/// Parse a `start_in:` delay like `"30 seconds"`, `"5 minutes"`, `"1 hour"`, `"30s"`
/// into seconds.
pub fn parse_delay(s: &str) -> (r: Result<u64, ()>)
    ensures
        match delay_seconds(s@) {
            Some(n) => r matches Ok(x) && x == n,
            None => r is Err,
        },
{
    let trimmed = trim(s);
    let t = to_lowercase(trimmed.as_str());
    let parts = split_whitespace(t.as_str());
    let ghost pv = views(parts@);
    if parts.len() == 2 {
        assert(pv[0] == parts@[0]@ && pv[1] == parts@[1]@);
        match parse_u64(parts[0].as_str()) {
            Some(n) => {
                let u = parts[1].as_str();
                if str_eq(u, "second") || str_eq(u, "seconds") || str_eq(u, "s") {
                    return Ok(n);
                } else if str_eq(u, "minute") || str_eq(u, "minutes") || str_eq(u, "m") {
                    return Ok(n.wrapping_mul(60));
                } else if str_eq(u, "hour") || str_eq(u, "hours") || str_eq(u, "h") {
                    return Ok(n.wrapping_mul(3600));
                } else {
                    return Err(());
                }
            },
            None => {},
        }
    }
    if let Some(n) = compact_delay_value(t.as_str(), 's') {
        return Ok(n);
    }
    if let Some(n) = compact_delay_value(t.as_str(), 'm') {
        return Ok(n.wrapping_mul(60));
    }
    if let Some(n) = compact_delay_value(t.as_str(), 'h') {
        return Ok(n.wrapping_mul(3600));
    }
    match parse_u64(t.as_str()) {
        Some(n) => Ok(n),
        None => Err(()),
    }
}

/// The failure type `retry:when` filters on: a failed script, a timeout, or unknown.
pub open spec fn failure_kind(e: LabError) -> Seq<char> {
    match e {
        LabError::ContainerFailed { .. } => "script_failure"@,
        LabError::Other(m) => if contains_seq(m@, "timed out"@) {
            "stuck_or_timeout_failure"@
        } else {
            "unknown_failure"@
        },
        _ => "unknown_failure"@,
    }
}

pub fn failure_type(e: &LabError) -> (r: &'static str)
    ensures
        r@ == failure_kind(*e),
{
    match e {
        LabError::ContainerFailed { .. } => "script_failure",
        LabError::Other(m) => if contains(m.as_str(), "timed out") {
            "stuck_or_timeout_failure"
        } else {
            "unknown_failure"
        },
        _ => "unknown_failure",
    }
}

/// The error of a script that exceeded its timeout.
pub fn timeout_error(secs: u64) -> (r: LabError)
    ensures
        r matches LabError::Other(m) && m@ == "job timed out after "@ + decimal(secs as nat) + "s"@,
{
    let d = u64_to_string(secs);
    let mut m = String::from_str("job timed out after ");
    m.append(d.as_str());
    m.append("s");
    LabError::Other(m)
}

/// The error of a script that exited with a non-zero code; `Ok` for zero.
pub fn exit_result(code: i64) -> (r: Result<(), LabError>)
    ensures
        code == 0 ==> r is Ok,
        code != 0 ==> (r matches Err(LabError::ContainerFailed { code: c }) && c == code),
{
    if code != 0 {
        Err(LabError::ContainerFailed { code })
    } else {
        Ok(())
    }
}

/// How many times a job is retried: its `retry:` count, or none.
pub open spec fn retries_of(retry: Option<RetryConfig>) -> u32 {
    match retry {
        Some(r) => r.max_retries_spec(),
        None => 0,
    }
}

/// Whether to run the script again after attempt `attempt` (counted from 0) failed
/// with `e`: when `retry:when` allows the failure type (any, without `retry:`) and
/// attempts are left.
pub fn retry_after_failure(retry: Option<&RetryConfig>, attempt: u32, e: &LabError) -> (r: bool)
    ensures
        r == ((match retry {
            Some(c) => c.should_retry_spec(failure_kind(*e)),
            None => true,
        }) && attempt < retries_of(match retry {
            Some(c) => Some(*c),
            None => None,
        })),
{
    let max = match retry {
        Some(c) => c.max_retries(),
        None => 0,
    };
    let allowed = match retry {
        Some(c) => c.should_retry(failure_type(e)),
        None => true,
    };
    allowed && attempt < max
}

// ---------------------------------------------------------------------------
// Artifacts, images and networks
// ---------------------------------------------------------------------------
/// The jobs whose artifacts a job receives: its `dependencies:` when given, else the
/// needs that want artifacts, else none.
pub open spec fn artifact_sources(deps: Option<Seq<Seq<char>>>, needs: Option<Seq<NeedView>>) -> Seq<
    Seq<char>,
> {
    match deps {
        Some(d) => d,
        None => match needs {
            Some(ns) => wanted_needs(ns),
            None => Seq::empty(),
        },
    }
}

/// The names of the needs that want artifacts, in order.
pub open spec fn wanted_needs(ns: Seq<NeedView>) -> Seq<Seq<char>>
    decreases ns.len(),
{
    if ns.len() == 0 {
        Seq::empty()
    } else if ns.last().artifacts {
        wanted_needs(ns.drop_last()).push(ns.last().job)
    } else {
        wanted_needs(ns.drop_last())
    }
}

/// Determine which jobs to download artifacts from.
pub fn get_artifact_dependencies(job: &Job) -> (r: Vec<String>)
    ensures
        views(r@) == artifact_sources(
            match job.dependencies {
                Some(d) => Some(views(d@)),
                None => None,
            },
            job@.needs,
        ),
{
    if let Some(deps) = &job.dependencies {
        return clone_strings(deps);
    }
    if let Some(needs) = &job.needs {
        let ghost ns = crate::model::job::need_views(needs@);
        let mut out: Vec<String> = Vec::new();
        let mut i: usize = 0;
        assert(ns.subrange(0, 0) =~= Seq::<NeedView>::empty());
        while i < needs.len()
            invariant
                i <= needs@.len(),
                ns == crate::model::job::need_views(needs@),
                ns.len() == needs@.len(),
                views(out@) == wanted_needs(ns.subrange(0, i as int)),
            decreases needs@.len() - i,
        {
            let need: &Need = &needs[i];
            assert(ns[i as int] == need@);
            assert(ns.subrange(0, i + 1).drop_last() =~= ns.subrange(0, i as int));
            if need.wants_artifacts() {
                let ghost before = views(out@);
                out.push(String::from_str(need.job_name()));
                assert(views(out@) =~= before.push(need@.job));
            }
            i = i + 1;
        }
        assert(ns.subrange(0, needs@.len() as int) =~= ns);
        return out;
    }
    Vec::new()
}

/// Whether artifacts are collected after a run: on success by default, on failure, or
/// always, as `artifacts:when` says.
pub fn should_collect_artifacts(when: Option<ArtifactWhen>, succeeded: bool) -> (r: bool)
    ensures
        r == match when {
            Some(ArtifactWhen::OnSuccess) | None => succeeded,
            Some(ArtifactWhen::OnFailure) => !succeeded,
            Some(ArtifactWhen::Always) => true,
        },
{
    match when {
        Some(ArtifactWhen::OnSuccess) | None => succeeded,
        Some(ArtifactWhen::OnFailure) => !succeeded,
        Some(ArtifactWhen::Always) => true,
    }
}

/// Where an artifact path lies in the job's container: an absolute path as it is, a
/// relative one under `/workspace`.
pub fn artifact_container_path(path: &str) -> (r: String)
    ensures
        r@ == if "/"@.is_prefix_of(path@) {
            path@
        } else {
            "/workspace/"@ + path@
        },
{
    if starts_with(path, "/") {
        String::from_str(path)
    } else {
        crate::text::concat("/workspace/", path)
    }
}

/// The network a job with services runs on: `lab-{name}-network`.
pub fn network_name(job_name: &str) -> (r: String)
    ensures
        r@ == "lab-"@ + job_name@ + "-network"@,
{
    let mut s = String::from_str("lab-");
    s.append(job_name);
    s.append("-network");
    s
}

/// The segment of `s` after its first `:` up to the next `:` (or the end), if any.
pub open spec fn tag_of(s: Seq<char>) -> Option<Seq<char>>
    decreases s.len(),
{
    if s.len() == 0 {
        None
    } else if s[0] == ':' {
        Some(crate::text::before_char(s.drop_first(), ':'))
    } else {
        tag_of(s.drop_first())
    }
}

/// What to tell the user about an image: whether its tag is `latest` (or missing),
/// and whether a full `node`/`python`/`ruby` image could be an alpine/slim variant.
pub struct ImageAdvice {
    pub floating_tag: bool,
    pub suggest_slim: bool,
}

pub open spec fn image_advice(image: Seq<char>) -> ImageAdvice {
    let tag = match tag_of(image) {
        Some(t) => t,
        None => "latest"@,
    };
    ImageAdvice {
        floating_tag: tag == "latest"@ || !image.contains(':'),
        suggest_slim: !contains_seq(image, "alpine"@) && !contains_seq(image, "slim"@)
            && !contains_seq(image, "distroless"@) && !contains_seq(image, "@sha256:"@) && (
        "node:"@.is_prefix_of(image) || "python:"@.is_prefix_of(image) || "ruby:"@.is_prefix_of(
            image,
        )),
    }
}

/// Warn about non-deterministic or oversized Docker image tags.
pub fn warn_image_tag(image: &str) -> (r: ImageAdvice)
    ensures
        r == image_advice(image@),
{
    let v = crate::text::chars_of(image);
    let mut i: usize = 0;
    let mut colon = false;
    assert(image@.skip(0) =~= image@);
    while i < v.len() && !colon
        invariant
            v@ == image@,
            i <= v@.len(),
            colon ==> i < v@.len() && v@[i as int] == ':',
            tag_of(image@) == tag_of(image@.skip(i as int)),
            !colon ==> forall|j: int| 0 <= j < i ==> v@[j] != ':',
        decreases v@.len() - i, if colon { 0int } else { 1int },
    {
        assert(image@.skip(i as int)[0] == v@[i as int]);
        if v[i] == ':' {
            colon = true;
        } else {
            assert(image@.skip(i as int).drop_first() =~= image@.skip(i + 1));
            i = i + 1;
        }
    }
    let floating = if colon {
        let rest = crate::text::string_of_range(&v, i + 1, v.len());
        assert(image@.skip(i as int).drop_first() =~= rest@);
        let tag = crate::text::split_first(rest.as_str(), ':');
        assert(image@.contains(':')) by {
            assert(image@[i as int] == ':');
        }
        str_eq(tag.as_str(), "latest")
    } else {
        assert(image@.skip(i as int).len() == 0);
        assert(!image@.contains(':'));
        true
    };
    let slim = !contains(image, "alpine") && !contains(image, "slim") && !contains(
        image,
        "distroless",
    ) && !contains(image, "@sha256:") && (starts_with(image, "node:") || starts_with(
        image,
        "python:",
    ) || starts_with(image, "ruby:"));
    ImageAdvice { floating_tag: floating, suggest_slim: slim }
}

} // verus!
