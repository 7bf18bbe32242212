//! The command-line vocabulary: subcommand options and argument parsing.
use vstd::prelude::*;

use crate::config::PullPolicy;
use crate::report::pair_views;
use crate::text::{
    chars_of, char_pos, concat3, decimal, find_char, lemma_char_pos, owned, split_char, split_on, str_eq,
    string_of_range, u64_to_string,
};

verus! {

/// `lab secrets` subcommands.
#[derive(Debug, Clone)]
pub enum SecretsAction {
    /// Pull secrets from GitLab project and group variables (via glab).
    Pull { group: Option<String> },
    /// Check which secrets are available vs missing.
    Check,
    /// Generate the secrets example template from the pipeline.
    Init,
}

/// `--pull-policy` values.
#[derive(Debug, Clone, Copy, PartialEq, Eq, Structural)]
pub enum PullPolicyArg {
    Always,
    IfNotPresent,
    Never,
}

impl PullPolicyArg {
    /// The pull policy this argument names.
    pub fn to_policy(self) -> (r: PullPolicy)
        ensures
            r == match self {
                PullPolicyArg::Always => PullPolicy::Always,
                PullPolicyArg::IfNotPresent => PullPolicy::IfNotPresent,
                PullPolicyArg::Never => PullPolicy::Never,
            },
    {
        match self {
            PullPolicyArg::Always => PullPolicy::Always,
            PullPolicyArg::IfNotPresent => PullPolicy::IfNotPresent,
            PullPolicyArg::Never => PullPolicy::Never,
        }
    }
}

/// `--format` values.
#[derive(Debug, Clone, Copy, PartialEq, Eq, Structural)]
pub enum OutputFormat {
    Text,
    Json,
}

/// Split `KEY=VALUE` at its first `=`.
pub fn parse_key_val(s: &str) -> (r: Result<(String, String), String>)
    ensures
        match r {
            Ok((k, v)) => char_pos(s@, '=') >= 0 && k@ == s@.subrange(0, char_pos(s@, '='))
                && v@ == s@.subrange(char_pos(s@, '=') + 1, s@.len() as int),
            Err(m) => char_pos(s@, '=') == -1 && m@ == "invalid KEY=VALUE: no '=' found in '"@
                + s@ + "'"@,
        },
{
    let v = chars_of(s);
    let n = v.len();
    proof {
        lemma_char_pos(s@, '=');
    }
    match find_char(&v, '=') {
        Some(pos) => Ok((string_of_range(&v, 0, pos), string_of_range(&v, pos + 1, n))),
        None => Err(concat3("invalid KEY=VALUE: no '=' found in '", s, "'")),
    }
}

/// A duration in seconds as `"{s}s"` under a minute, else `"{m}m {s}s"`.
pub open spec fn duration_text(secs: nat) -> Seq<char> {
    if secs < 60 {
        decimal(secs) + "s"@
    } else {
        decimal(secs / 60) + "m "@ + decimal(secs % 60) + "s"@
    }
}

/// Format a duration given in whole seconds.
pub fn format_duration(secs: u64) -> (r: String)
    ensures
        r@ == duration_text(secs as nat),
{
    if secs < 60 {
        let d = u64_to_string(secs);
        let mut r = d;
        r.append("s");
        r
    } else {
        let m = u64_to_string(secs / 60);
        let s = u64_to_string(secs % 60);
        let mut r = concat3(m.as_str(), "m ", s.as_str());
        r.append("s");
        r
    }
}


/// The part of a tag after its last `/` (all of it when it has none).
pub open spec fn tag_ref_name(tag: Seq<char>) -> Seq<char> {
    split_on(tag, '/').last()
}

/// The variables `--tag` sets: the tag, a push pipeline, and the ref name.
pub open spec fn tag_vars(tag: Seq<char>) -> Seq<(Seq<char>, Seq<char>)> {
    seq![
        ("CI_COMMIT_TAG"@, tag),
        ("CI_PIPELINE_SOURCE"@, "push"@),
        ("CI_COMMIT_REF_NAME"@, tag_ref_name(tag)),
    ]
}

/// The variables to add for `--tag`, in order.
pub fn tag_variables(tag: &str) -> (r: Vec<(String, String)>)
    ensures
        pair_views(r@) == tag_vars(tag@),
{
    let pieces = split_char(tag, '/');
    assert(split_on(tag@, '/').len() >= 1);
    let last = pieces[pieces.len() - 1].clone();
    let mut v: Vec<(String, String)> = Vec::new();
    v.push((owned("CI_COMMIT_TAG"), owned(tag)));
    v.push((owned("CI_PIPELINE_SOURCE"), owned("push")));
    v.push((owned("CI_COMMIT_REF_NAME"), last));
    proof {
        assert(pair_views(v@) =~= tag_vars(tag@));
    }
    v
}

/// Whether `--event` names a pipeline source GitLab knows.
pub open spec fn known_event(e: Seq<char>) -> bool {
    ||| e == "push"@
    ||| e == "merge_request_event"@
    ||| e == "schedule"@
    ||| e == "web"@
    ||| e == "api"@
    ||| e == "trigger"@
    ||| e == "pipeline"@
    ||| e == "parent_pipeline"@
    ||| e == "chat"@
    ||| e == "webide"@
    ||| e == "external_pull_request_event"@
    ||| e == "ondemand_dast_scan"@
    ||| e == "ondemand_dast_validation"@
    ||| e == "security_orchestration_policy"@
}

/// The variables `--event` sets: the pipeline source, then what that kind of pipeline
/// carries besides.
pub open spec fn event_vars(e: Seq<char>) -> Seq<(Seq<char>, Seq<char>)> {
    let source = seq![("CI_PIPELINE_SOURCE"@, e)];
    if e == "merge_request_event"@ {
        source.push(("CI_MERGE_REQUEST_IID"@, "0"@))
    } else if e == "schedule"@ {
        source.push(("CI_PIPELINE_SCHEDULE"@, "true"@))
    } else if e == "trigger"@ {
        source.push(("CI_PIPELINE_TRIGGERED"@, "true"@))
    } else {
        source
    }
}

fn is_known_event(e: &str) -> (r: bool)
    ensures
        r == known_event(e@),
{
    str_eq(e, "push") || str_eq(e, "merge_request_event") || str_eq(e, "schedule") || str_eq(
        e,
        "web",
    ) || str_eq(e, "api") || str_eq(e, "trigger") || str_eq(e, "pipeline") || str_eq(
        e,
        "parent_pipeline",
    ) || str_eq(e, "chat") || str_eq(e, "webide") || str_eq(e, "external_pull_request_event")
        || str_eq(e, "ondemand_dast_scan") || str_eq(e, "ondemand_dast_validation") || str_eq(
        e,
        "security_orchestration_policy",
    )
}

/// The variables to add for `--event`, in order, and whether the event is a known one.
pub fn event_variables(event: &str) -> (r: (Vec<(String, String)>, bool))
    ensures
        pair_views(r.0@) == event_vars(event@),
        r.1 == known_event(event@),
{
    let mut v: Vec<(String, String)> = Vec::new();
    v.push((owned("CI_PIPELINE_SOURCE"), owned(event)));
    if str_eq(event, "merge_request_event") {
        v.push((owned("CI_MERGE_REQUEST_IID"), owned("0")));
    } else if str_eq(event, "schedule") {
        v.push((owned("CI_PIPELINE_SCHEDULE"), owned("true")));
    } else if str_eq(event, "trigger") {
        v.push((owned("CI_PIPELINE_TRIGGERED"), owned("true")));
    }
    proof {
        assert(pair_views(v@) =~= event_vars(event@));
    }
    (v, is_known_event(event))
}

} // verus!
