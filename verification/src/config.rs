//! Runtime configuration and the project's `.lab.yml` defaults.
use vstd::prelude::*;

use indexmap::IndexMap;

use crate::collections::{
    key_index, str_entries, strs_get_index, strs_index_of, strs_insert, strs_len, strs_new,
};
use crate::text::str_eq;

verus! {

/// How to handle `when: manual` jobs.
#[derive(Debug, Clone, Copy, PartialEq, Eq, Structural)]
pub enum ManualMode {
    /// Prompt the user interactively (default).
    Prompt,
    /// Auto-approve all manual jobs.
    Approve,
    /// Auto-skip all manual jobs.
    Skip,
}

impl Default for ManualMode {
    fn default() -> (r: ManualMode)
        ensures
            r == ManualMode::Prompt,
    {
        ManualMode::Prompt
    }
}

/// Image pull policy.
#[derive(Debug, Clone, Copy, PartialEq, Eq, Structural)]
pub enum PullPolicy {
    Always,
    IfNotPresent,
    Never,
}

impl Default for PullPolicy {
    fn default() -> (r: PullPolicy)
        ensures
            r == PullPolicy::IfNotPresent,
    {
        PullPolicy::IfNotPresent
    }
}

/// Runtime configuration for a lab execution (the container CPU limit is kept by the
/// caller, as a float).
#[derive(Debug, Clone)]
pub struct Config {
    /// Path to .gitlab-ci.yml.
    pub ci_file: String,
    /// Working directory (project root).
    pub workdir: String,
    /// Specific jobs to run (None = run all).
    pub job_filter: Option<Vec<String>>,
    /// Specific stage to run (None = run all).
    pub stage_filter: Option<String>,
    /// User-provided CI/CD variables (-v KEY=VALUE).
    pub variables: IndexMap<String, String>,
    /// Image pull policy.
    pub pull_policy: PullPolicy,
    /// Run containers in privileged mode (for dind).
    pub privileged: bool,
    /// Disable artifact passing between jobs.
    pub no_artifacts: bool,
    /// Disable cache.
    pub no_cache: bool,
    /// Platform overrides (job_name=image).
    pub platform_overrides: IndexMap<String, String>,
    /// Maximum parallel jobs.
    pub max_parallel: usize,
    /// How to handle manual jobs.
    pub manual_mode: ManualMode,
    /// Memory limit for containers (in bytes).
    pub memory: Option<i64>,
}

impl Config {
    /// The default configuration, with `max_parallel` jobs at once (the number of CPUs).
    pub fn new(max_parallel: usize) -> (r: Config)
        ensures
            r.ci_file@ == ".gitlab-ci.yml"@,
            r.workdir@ == "."@,
            r.job_filter is None,
            r.stage_filter is None,
            str_entries(r.variables).len() == 0,
            r.pull_policy == PullPolicy::IfNotPresent,
            !r.privileged,
            !r.no_artifacts,
            !r.no_cache,
            str_entries(r.platform_overrides).len() == 0,
            r.max_parallel == max_parallel,
            r.manual_mode == ManualMode::Prompt,
            r.memory is None,
    {
        Config {
            ci_file: String::from_str(".gitlab-ci.yml"),
            workdir: String::from_str("."),
            job_filter: None,
            stage_filter: None,
            variables: strs_new(),
            pull_policy: PullPolicy::IfNotPresent,
            privileged: false,
            no_artifacts: false,
            no_cache: false,
            platform_overrides: strs_new(),
            max_parallel,
            manual_mode: ManualMode::Prompt,
            memory: None,
        }
    }
}

/// Project-level config file (`.lab.yml`), applied as defaults: CLI flags override it.
#[derive(Debug, Clone)]
pub struct ProjectConfig {
    /// Default CI/CD variables.
    pub variables: IndexMap<String, String>,
    /// Default image override for all jobs.
    pub image: Option<String>,
    /// Default pull policy.
    pub pull_policy: Option<String>,
    /// Run in privileged mode by default.
    pub privileged: Option<bool>,
    /// Maximum parallel jobs.
    pub max_parallel: Option<usize>,
    /// Platform overrides (job_name=image).
    pub platforms: IndexMap<String, String>,
    /// Local project path mappings for `include:project`.
    pub projects: IndexMap<String, String>,
}

impl Default for ProjectConfig {
    fn default() -> (r: ProjectConfig)
        ensures
            str_entries(r.variables).len() == 0,
            r.image is None,
            r.pull_policy is None,
            r.privileged is None,
            r.max_parallel is None,
            str_entries(r.platforms).len() == 0,
            str_entries(r.projects).len() == 0,
    {
        ProjectConfig {
            variables: strs_new(),
            image: None,
            pull_policy: None,
            privileged: None,
            max_parallel: None,
            platforms: strs_new(),
            projects: strs_new(),
        }
    }
}

/// The entries of `base` with every entry of `extra` whose key it lacks added in order.
pub open spec fn insert_missing(
    base: Seq<(Seq<char>, Seq<char>)>,
    extra: Seq<(Seq<char>, Seq<char>)>,
) -> Seq<(Seq<char>, Seq<char>)>
    decreases extra.len(),
{
    if extra.len() == 0 {
        base
    } else {
        let prev = insert_missing(base, extra.drop_last());
        if key_index(prev, extra.last().0) >= 0 {
            prev
        } else {
            prev.push(extra.last())
        }
    }
}

/// The pull policy a `.lab.yml` names: `always`, `never`, anything else if-not-present.
pub open spec fn policy_named(s: Seq<char>) -> PullPolicy {
    if s == "always"@ {
        PullPolicy::Always
    } else if s == "never"@ {
        PullPolicy::Never
    } else {
        PullPolicy::IfNotPresent
    }
}

pub fn pull_policy_named(s: &str) -> (r: PullPolicy)
    ensures
        r == policy_named(s@),
{
    if str_eq(s, "always") {
        PullPolicy::Always
    } else if str_eq(s, "never") {
        PullPolicy::Never
    } else {
        PullPolicy::IfNotPresent
    }
}

/// Add each entry of `extra` whose key `m` lacks.
fn add_missing(m: &mut IndexMap<String, String>, extra: &IndexMap<String, String>)
    ensures
        str_entries(*final(m)) == insert_missing(str_entries(*old(m)), str_entries(*extra)),
{
    let ghost base = str_entries(*m);
    let ghost t = str_entries(*extra);
    let n = strs_len(extra);
    let mut i: usize = 0;
    assert(t.subrange(0, 0) =~= Seq::<(Seq<char>, Seq<char>)>::empty());
    while i < n
        invariant
            n == t.len(),
            t == str_entries(*extra),
            i <= n,
            str_entries(*m) == insert_missing(base, t.subrange(0, i as int)),
        decreases n - i,
    {
        let (k, v) = strs_get_index(extra, i);
        assert(t.subrange(0, i + 1).drop_last() =~= t.subrange(0, i as int));
        if strs_index_of(m, k.as_str()).is_none() {
            strs_insert(m, k.clone(), v.clone());
        }
        i = i + 1;
    }
    assert(t.subrange(0, n as int) =~= t);
}

impl ProjectConfig {
    /// Apply project config as defaults to a Config: variables and platform overrides
    /// only fill keys the config lacks; a named pull policy replaces the config's;
    /// `privileged` only turns it on; `max_parallel` replaces it.
    pub fn apply_to(&self, config: &mut Config)
        ensures
            str_entries(final(config).variables) == insert_missing(
                str_entries(old(config).variables),
                str_entries(self.variables),
            ),
            final(config).pull_policy == match self.pull_policy {
                Some(p) => policy_named(p@),
                None => old(config).pull_policy,
            },
            final(config).privileged == match self.privileged {
                Some(p) => old(config).privileged || p,
                None => old(config).privileged,
            },
            final(config).max_parallel == match self.max_parallel {
                Some(m) => m,
                None => old(config).max_parallel,
            },
            str_entries(final(config).platform_overrides) == insert_missing(
                str_entries(old(config).platform_overrides),
                str_entries(self.platforms),
            ),
            final(config).ci_file == old(config).ci_file,
            final(config).workdir == old(config).workdir,
            final(config).manual_mode == old(config).manual_mode,
            final(config).no_artifacts == old(config).no_artifacts,
            final(config).no_cache == old(config).no_cache,
            final(config).memory == old(config).memory,
    {
        add_missing(&mut config.variables, &self.variables);
        if let Some(policy) = &self.pull_policy {
            config.pull_policy = pull_policy_named(policy.as_str());
        }
        if let Some(p) = self.privileged {
            if !config.privileged {
                config.privileged = p;
            }
        }
        if let Some(m) = self.max_parallel {
            config.max_parallel = m;
        }
        add_missing(&mut config.platform_overrides, &self.platforms);
    }
}

} // verus!
