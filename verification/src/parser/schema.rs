//! Reading a resolved document as a pipeline: its stages, which entries are jobs, the
//! workflow, the defaults jobs inherit, and the check that every job's stage exists.
//! Typed values (variables, defaults, jobs, rules) are read from their YAML nodes by the
//! caller.
use vstd::prelude::*;

use indexmap::IndexMap;

use crate::collections::{job_entries, jobs_get_index, jobs_len, jobs_set_value, key_index};
use crate::error::{debug_quoted, debug_str, error_message, LabError};
use crate::model::job::{
    cache_views, clone_caches, clone_opt_string, clone_services, inherit_default, service_views,
    ArtifactView, CacheView, ImageView, InheritToggle, Job, JobDefaults, JobView, RetryView,
    ServiceView, ToggleView,
};
use crate::model::pipeline::{default_stage_names, default_stages, AutoCancelConfig, Pipeline, WorkflowConfig};
use crate::model::variables::{opt_view, opt_views, Variables};
use crate::parser::yaml::{
    entry_views, find_key, lemma_mapping_view, lemma_sequence_view, str_items, str_node,
    string_items, Yaml, YamlView,
};
use crate::text::{clone_strings, concat, concat3, string_in, views};

verus! {

/// Top-level keys that are not jobs.
pub open spec fn reserved_key(name: Seq<char>) -> bool {
    name == "default"@ || name == "include"@ || name == "stages"@ || name == "variables"@ || name
        == "workflow"@ || name == "spec"@
}

/// Whether a top-level key names a job: not a reserved key, not hidden (`.name`).
pub open spec fn is_job_name(name: Seq<char>) -> bool {
    !reserved_key(name) && !(name.len() > 0 && name[0] == '.')
}

pub fn job_name_ok(name: &str) -> (r: bool)
    ensures
        r == is_job_name(name@),
{
    let reserved = crate::text::str_eq(name, "default") || crate::text::str_eq(name, "include")
        || crate::text::str_eq(name, "stages") || crate::text::str_eq(name, "variables")
        || crate::text::str_eq(name, "workflow") || crate::text::str_eq(name, "spec");
    let v = crate::text::chars_of(name);
    !reserved && !(v.len() > 0 && v[0] == '.')
}

/// The stages a document lists: the string items of `stages`, or the default stages
/// when `stages` is not a sequence.
pub open spec fn stages_of(root: Seq<(YamlView, YamlView)>) -> Seq<Seq<char>> {
    let i = key_index(root, str_node("stages"@));
    if i >= 0 && root[i].1 is List {
        str_items(root[i].1->List_0)
    } else {
        default_stage_names()
    }
}

/// The stages of a document (`parse_stages`).
pub fn parse_stages(mapping: &Vec<(Yaml, Yaml)>) -> (r: Vec<String>)
    ensures
        views(r@) == stages_of(entry_views(mapping@)),
{
    let key = Yaml::String(String::from_str("stages"));
    match find_key(mapping, &key) {
        Some(i) => match &mapping[i].1 {
            Yaml::Sequence(items) => {
                proof {
                    lemma_sequence_view(*items);
                }
                string_items(items)
            },
            _ => default_stages(),
        },
        None => default_stages(),
    }
}

/// The node under a top-level key, if any.
pub open spec fn section(root: Seq<(YamlView, YamlView)>, key: Seq<char>) -> Option<YamlView> {
    let i = key_index(root, str_node(key));
    if i >= 0 {
        Some(root[i].1)
    } else {
        None
    }
}

/// The node under a top-level key (`variables`, `default`, …).
pub fn section_value<'a>(mapping: &'a Vec<(Yaml, Yaml)>, key: &str) -> (r: Option<&'a Yaml>)
    ensures
        match r {
            Some(v) => section(entry_views(mapping@), key@) == Some(v@),
            None => section(entry_views(mapping@), key@) is None,
        },
{
    let k = Yaml::String(String::from_str(key));
    match find_key(mapping, &k) {
        Some(i) => Some(&mapping[i].1),
        None => None,
    }
}

/// The entries of the document that define jobs, in order: those whose key is a string
/// naming a job.
pub open spec fn job_nodes(root: Seq<(YamlView, YamlView)>) -> Seq<(Seq<char>, YamlView)>
    decreases root.len(),
{
    if root.len() == 0 {
        Seq::empty()
    } else {
        let prev = job_nodes(root.drop_last());
        match root.last().0 {
            YamlView::Str(n) => if is_job_name(n) {
                prev.push((n, root.last().1))
            } else {
                prev
            },
            _ => prev,
        }
    }
}

/// The job definitions of a document, each with its name (the selection of
/// `parse_jobs`; each node is then read as a job by the caller).
pub fn job_definitions(mapping: &Vec<(Yaml, Yaml)>) -> (r: Vec<(String, Yaml)>)
    ensures
        r@.map_values(|e: (String, Yaml)| (e.0@, e.1@)) == job_nodes(entry_views(mapping@)),
{
    let ghost ev = entry_views(mapping@);
    let mut out: Vec<(String, Yaml)> = Vec::new();
    let mut i: usize = 0;
    assert(out@.map_values(|e: (String, Yaml)| (e.0@, e.1@)) =~= job_nodes(ev.take(0)));
    while i < mapping.len()
        invariant
            ev == entry_views(mapping@),
            i <= mapping@.len(),
            out@.map_values(|e: (String, Yaml)| (e.0@, e.1@)) == job_nodes(ev.take(i as int)),
        decreases mapping@.len() - i,
    {
        assert(ev.take(i + 1).drop_last() =~= ev.take(i as int));
        assert(ev.take(i + 1).last() == (mapping@[i as int].0@, mapping@[i as int].1@));
        let ghost before = out@.map_values(|e: (String, Yaml)| (e.0@, e.1@));
        match &mapping[i].0 {
            Yaml::String(n) => {
                if job_name_ok(n.as_str()) {
                    out.push((n.clone(), mapping[i].1.deep_copy()));
                    assert(out@.map_values(|e: (String, Yaml)| (e.0@, e.1@)) =~= before.push(
                        (n@, mapping@[i as int].1@),
                    ));
                }
            },
            _ => {},
        }
        i = i + 1;
    }
    assert(ev.take(mapping@.len() as int) =~= ev);
    out
}

/// What `workflow:` holds besides its rules: the rules node, the name, and the
/// auto-cancel settings.
pub struct WorkflowParts {
    pub rules: Option<Yaml>,
    pub name: Option<String>,
    pub auto_cancel: Option<AutoCancelConfig>,
}

/// The string under `key` of a mapping, if it holds one there.
pub open spec fn str_in(m: Seq<(YamlView, YamlView)>, key: Seq<char>) -> Option<Seq<char>> {
    let i = key_index(m, str_node(key));
    if i >= 0 && m[i].1 is Str {
        Some(m[i].1->Str_0)
    } else {
        None
    }
}

fn string_under(m: &Vec<(Yaml, Yaml)>, key: &str) -> (r: Option<String>)
    ensures
        opt_view(r) == str_in(entry_views(m@), key@),
{
    let k = Yaml::String(String::from_str(key));
    match find_key(m, &k) {
        Some(i) => match &m[i].1 {
            Yaml::String(s) => Some(s.clone()),
            _ => None,
        },
        None => None,
    }
}

/// Whether `p` holds what the workflow mapping `w` holds: its `rules` node, its string
/// `name`, and the string settings of an `auto_cancel` mapping.
pub open spec fn parts_of(p: WorkflowParts, w: Seq<(YamlView, YamlView)>) -> bool {
    &&& match p.rules {
        Some(n) => section(w, "rules"@) == Some(n@),
        None => section(w, "rules"@) is None,
    }
    &&& opt_view(p.name) == str_in(w, "name"@)
    &&& match section(w, "auto_cancel"@) {
        Some(YamlView::Dict(a)) => match p.auto_cancel {
            Some(c) => opt_view(c.on_new_commit) == str_in(a, "on_new_commit"@) && opt_view(
                c.on_job_failure,
            ) == str_in(a, "on_job_failure"@),
            None => false,
        },
        _ => p.auto_cancel is None,
    }
}

/// The message when `workflow` is not a mapping.
pub open spec fn workflow_not_mapping() -> Seq<char> {
    "workflow must be a mapping"@
}

/// Read `workflow:` (`parse_workflow`, but for its rules, which the caller reads from
/// the returned node): absent gives `None`; a value that is not a mapping is refused.
pub fn workflow_parts(mapping: &Vec<(Yaml, Yaml)>) -> (r: Result<Option<WorkflowParts>, LabError>)
    ensures
        match section(entry_views(mapping@), "workflow"@) {
            None => r matches Ok(None),
            Some(YamlView::Dict(w)) => (r matches Ok(Some(p)) && parts_of(p, w)),
            Some(_) => (r matches Err(e) && e is InvalidConfig && error_message(e)
                == "invalid pipeline configuration: "@ + workflow_not_mapping()),
        },
{
    let w = match section_value(mapping, "workflow") {
        None => return Ok(None),
        Some(w) => w,
    };
    let wm = match w {
        Yaml::Mapping(wm) => {
            proof {
                lemma_mapping_view(*wm);
            }
            wm
        },
        _ => return Err(LabError::InvalidConfig(String::from_str("workflow must be a mapping"))),
    };
    let rules = match section_value(wm, "rules") {
        Some(n) => Some(n.deep_copy()),
        None => None,
    };
    let name = string_under(wm, "name");
    let auto_cancel = match section_value(wm, "auto_cancel") {
        Some(Yaml::Mapping(a)) => {
            proof {
                lemma_mapping_view(*a);
            }
            Some(
                AutoCancelConfig {
                    on_new_commit: string_under(a, "on_new_commit"),
                    on_job_failure: string_under(a, "on_job_failure"),
                },
            )
        },
        _ => None,
    };
    Ok(Some(WorkflowParts { rules, name, auto_cancel }))
}

// ---------------------------------------------------------------------------
// Defaults
// ---------------------------------------------------------------------------
/// What jobs can take from `default:`.
pub struct DefaultsView {
    pub image: Option<ImageView>,
    pub before_script: Option<Seq<Seq<char>>>,
    pub after_script: Option<Seq<Seq<char>>>,
    pub services: Option<Seq<ServiceView>>,
    pub cache: Option<Seq<CacheView>>,
    pub artifacts: Option<ArtifactView>,
    pub retry: Option<RetryView>,
    pub timeout: Option<u64>,
    pub interruptible: Option<bool>,
    pub tags: Option<Seq<Seq<char>>>,
}

impl View for JobDefaults {
    type V = DefaultsView;

    open spec fn view(&self) -> DefaultsView {
        DefaultsView {
            image: match self.image {
                Some(i) => Some(i@),
                None => None,
            },
            before_script: opt_views(self.before_script),
            after_script: opt_views(self.after_script),
            services: match self.services {
                Some(v) => Some(service_views(v@)),
                None => None,
            },
            cache: match self.cache {
                Some(v) => Some(cache_views(v@)),
                None => None,
            },
            artifacts: match self.artifacts {
                Some(a) => Some(a@),
                None => None,
            },
            retry: match self.retry {
                Some(r) => Some(r@),
                None => None,
            },
            timeout: self.timeout,
            interruptible: self.interruptible,
            tags: opt_views(self.tags),
        }
    }
}

/// Whether a job takes the default of `keyword`: always without `inherit:default`,
/// never with `false`, only the listed keywords with a list.
pub open spec fn inherits(t: Option<ToggleView>, keyword: Seq<char>) -> bool {
    match t {
        Some(ToggleView::Bool(b)) => b,
        Some(ToggleView::List(l)) => l.contains(keyword),
        None => true,
    }
}

/// A job with the defaults applied: each keyword it does not set and inherits takes the
/// default's value.
pub open spec fn with_defaults(j: JobView, d: DefaultsView) -> JobView {
    let t = inherit_default(j);
    JobView {
        image: if j.image is None && inherits(t, "image"@) {
            d.image
        } else {
            j.image
        },
        before_script: if j.before_script is None && inherits(t, "before_script"@) {
            d.before_script
        } else {
            j.before_script
        },
        after_script: if j.after_script is None && inherits(t, "after_script"@) {
            d.after_script
        } else {
            j.after_script
        },
        services: if j.services is None && inherits(t, "services"@) {
            d.services
        } else {
            j.services
        },
        cache: if j.cache is None && inherits(t, "cache"@) {
            d.cache
        } else {
            j.cache
        },
        artifacts: if j.artifacts is None && inherits(t, "artifacts"@) {
            d.artifacts
        } else {
            j.artifacts
        },
        retry: if j.retry is None && inherits(t, "retry"@) {
            d.retry
        } else {
            j.retry
        },
        timeout: if j.timeout is None && inherits(t, "timeout"@) {
            d.timeout
        } else {
            j.timeout
        },
        interruptible: if j.interruptible is None && inherits(t, "interruptible"@) {
            d.interruptible
        } else {
            j.interruptible
        },
        tags: if j.tags is None && inherits(t, "tags"@) {
            d.tags
        } else {
            j.tags
        },
        ..j
    }
}

fn inherits_exec(job: &Job, keyword: &str) -> (r: bool)
    ensures
        r == inherits(inherit_default(job@), keyword@),
{
    match &job.inherit {
        Some(cfg) => match &cfg.default {
            Some(InheritToggle::Bool(b)) => *b,
            Some(InheritToggle::List(list)) => string_in(list, keyword),
            None => true,
        },
        None => true,
    }
}

/// `job` with `defaults` applied.
pub fn with_job_defaults(job: Job, defaults: &JobDefaults) -> (r: Job)
    ensures
        r@ == with_defaults(job@, defaults@),
{
    let take_image = job.image.is_none() && inherits_exec(&job, "image");
    let take_before = job.before_script.is_none() && inherits_exec(&job, "before_script");
    let take_after = job.after_script.is_none() && inherits_exec(&job, "after_script");
    let take_services = job.services.is_none() && inherits_exec(&job, "services");
    let take_cache = job.cache.is_none() && inherits_exec(&job, "cache");
    let take_artifacts = job.artifacts.is_none() && inherits_exec(&job, "artifacts");
    let take_retry = job.retry.is_none() && inherits_exec(&job, "retry");
    let take_timeout = job.timeout.is_none() && inherits_exec(&job, "timeout");
    let take_interruptible = job.interruptible.is_none() && inherits_exec(&job, "interruptible");
    let take_tags = job.tags.is_none() && inherits_exec(&job, "tags");
    let ghost jv = job@;
    let Job {
        image,
        stage,
        script,
        before_script,
        after_script,
        variables,
        rules,
        needs,
        dependencies,
        artifacts,
        cache,
        services,
        when,
        allow_failure,
        timeout,
        retry,
        parallel,
        extends,
        tags,
        resource_group,
        interruptible,
        inherit,
        coverage,
        start_in,
        trigger,
        manual_confirmation,
    } = job;
    let image = if take_image {
        match &defaults.image {
            Some(i) => Some(i.clone()),
            None => None,
        }
    } else {
        image
    };
    let before_script = if take_before {
        match &defaults.before_script {
            Some(v) => Some(clone_strings(v)),
            None => None,
        }
    } else {
        before_script
    };
    let after_script = if take_after {
        match &defaults.after_script {
            Some(v) => Some(clone_strings(v)),
            None => None,
        }
    } else {
        after_script
    };
    let services = if take_services {
        match &defaults.services {
            Some(v) => Some(clone_services(v)),
            None => None,
        }
    } else {
        services
    };
    let cache = if take_cache {
        match &defaults.cache {
            Some(v) => Some(clone_caches(v)),
            None => None,
        }
    } else {
        cache
    };
    let artifacts = if take_artifacts {
        match &defaults.artifacts {
            Some(a) => Some(a.clone()),
            None => None,
        }
    } else {
        artifacts
    };
    let retry = if take_retry {
        match &defaults.retry {
            Some(r) => Some(r.clone()),
            None => None,
        }
    } else {
        retry
    };
    let timeout = if take_timeout {
        defaults.timeout
    } else {
        timeout
    };
    let interruptible = if take_interruptible {
        defaults.interruptible
    } else {
        interruptible
    };
    let tags = if take_tags {
        match &defaults.tags {
            Some(v) => Some(clone_strings(v)),
            None => None,
        }
    } else {
        tags
    };
    let r = Job {
        image,
        stage,
        script,
        before_script,
        after_script,
        variables,
        rules,
        needs,
        dependencies,
        artifacts,
        cache,
        services,
        when,
        allow_failure,
        timeout,
        retry,
        parallel,
        extends,
        tags,
        resource_group,
        interruptible,
        inherit,
        coverage,
        start_in,
        trigger,
        manual_confirmation,
    };
    assert(r@ == with_defaults(jv, defaults@));
    r
}

/// Every job with the defaults applied, in place (`apply_defaults`).
pub fn apply_defaults(jobs: &mut IndexMap<String, Job>, defaults: &JobDefaults)
    ensures
        job_entries(*final(jobs)) == job_entries(*old(jobs)).map_values(
            |e: (Seq<char>, JobView)| (e.0, with_defaults(e.1, defaults@)),
        ),
{
    let ghost start = job_entries(*jobs);
    let n = jobs_len(jobs);
    let mut i: usize = 0;
    while i < n
        invariant
            n == start.len(),
            i <= n,
            job_entries(*jobs).len() == n,
            forall|k: int|
                0 <= k < n ==> #[trigger] job_entries(*jobs)[k] == if k < i {
                    (start[k].0, with_defaults(start[k].1, defaults@))
                } else {
                    start[k]
                },
        decreases n - i,
    {
        let (_, job) = jobs_get_index(jobs, i);
        let j = with_job_defaults(job.clone(), defaults);
        jobs_set_value(jobs, i, j);
        i = i + 1;
    }
    assert(job_entries(*jobs) =~= start.map_values(
        |e: (Seq<char>, JobView)| (e.0, with_defaults(e.1, defaults@)),
    ));
}

// ---------------------------------------------------------------------------
// Stages of the jobs
// ---------------------------------------------------------------------------
/// Position of the first job whose stage is not listed, or -1.
pub open spec fn first_unknown_stage(jobs: Seq<(Seq<char>, JobView)>, stages: Seq<Seq<char>>) -> int
    decreases jobs.len(),
{
    if jobs.len() == 0 {
        -1
    } else {
        let k = first_unknown_stage(jobs.drop_last(), stages);
        if k >= 0 {
            k
        } else if !stages.contains(jobs.last().1.stage) {
            jobs.len() - 1
        } else {
            -1
        }
    }
}

/// The message for a job in an unknown stage.
pub open spec fn unknown_stage_message(name: Seq<char>, stage: Seq<char>) -> Seq<char> {
    "job "@ + debug_quoted(name) + " references unknown stage "@ + debug_quoted(stage)
}

/// Check that every job's stage is listed; the first job that is not is reported.
pub fn check_job_stages(jobs: &IndexMap<String, Job>, stages: &Vec<String>) -> (r: Result<(), LabError>)
    ensures
        first_unknown_stage(job_entries(*jobs), views(stages@)) < 0 ==> r is Ok,
        first_unknown_stage(job_entries(*jobs), views(stages@)) >= 0 ==> (r matches Err(e)
            && e is InvalidConfig && error_message(e) == "invalid pipeline configuration: "@
            + unknown_stage_message(
            job_entries(*jobs)[first_unknown_stage(job_entries(*jobs), views(stages@))].0,
            job_entries(*jobs)[first_unknown_stage(job_entries(*jobs), views(stages@))].1.stage,
        )),
{
    let ghost e = job_entries(*jobs);
    let ghost sv = views(stages@);
    let n = jobs_len(jobs);
    let mut i: usize = 0;
    while i < n
        invariant
            e == job_entries(*jobs),
            sv == views(stages@),
            n == e.len(),
            i <= n,
            first_unknown_stage(e.take(i as int), sv) == -1,
        decreases n - i,
    {
        let (name, job) = jobs_get_index(jobs, i);
        assert(e.take(i + 1).drop_last() =~= e.take(i as int));
        assert(e.take(i + 1).last() == e[i as int]);
        if !string_in(stages, job.stage.as_str()) {
            proof {
                lemma_first_unknown_prefix(e, sv, i + 1);
            }
            let a = debug_str(name.as_str());
            let b = debug_str(job.stage.as_str());
            let m = concat3("job ", a.as_str(), " references unknown stage ");
            let m = concat(m.as_str(), b.as_str());
            return Err(LabError::InvalidConfig(m));
        }
        i = i + 1;
    }
    assert(e.take(n as int) =~= e);
    Ok(())
}

proof fn lemma_first_unknown_prefix(jobs: Seq<(Seq<char>, JobView)>, stages: Seq<Seq<char>>, n: int)
    requires
        0 < n <= jobs.len(),
        first_unknown_stage(jobs.take(n), stages) >= 0,
    ensures
        first_unknown_stage(jobs, stages) == first_unknown_stage(jobs.take(n), stages),
    decreases jobs.len() - n,
{
    if n < jobs.len() {
        assert(jobs.take(n + 1).drop_last() =~= jobs.take(n));
        lemma_first_unknown_prefix(jobs, stages, n + 1);
    } else {
        assert(jobs.take(n) =~= jobs);
    }
}

/// The pipeline from its read parts (the end of `parse_pipeline`): the jobs take the
/// defaults, then every job's stage must be listed.
pub fn build_pipeline(
    stages: Vec<String>,
    variables: Variables,
    defaults: JobDefaults,
    jobs: IndexMap<String, Job>,
    workflow: Option<WorkflowConfig>,
) -> (r: Result<Pipeline, LabError>)
    ensures
        ({
            let applied = job_entries(jobs).map_values(
                |e: (Seq<char>, JobView)| (e.0, with_defaults(e.1, defaults@)),
            );
            let k = first_unknown_stage(applied, views(stages@));
            &&& k < 0 ==> (r matches Ok(p) && views(p.stages@) == views(stages@)
                && job_entries(p.jobs) == applied && p.variables == variables && p.defaults
                == defaults && p.workflow == workflow)
            &&& k >= 0 ==> (r matches Err(e) && e is InvalidConfig && error_message(e)
                == "invalid pipeline configuration: "@ + unknown_stage_message(
                applied[k].0,
                applied[k].1.stage,
            ))
        }),
{
    let mut jobs = jobs;
    apply_defaults(&mut jobs, &defaults);
    match check_job_stages(&jobs, &stages) {
        Err(e) => Err(e),
        Ok(()) => Ok(Pipeline { stages, variables, defaults, jobs, workflow }),
    }
}

} // verus!
