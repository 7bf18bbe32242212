//! Job definitions and the keyword values they hold.
use vstd::prelude::*;

use indexmap::IndexMap;

use crate::model::rules::{clone_rules, rule_views, Rule, RuleView};
use crate::collections::{matrix_clone, matrix_entries, var_entries, vars_clone};
use crate::model::variables::{opt_view, opt_views, VariableView, Variables};
use crate::parser::yaml::{Yaml, YamlView};
use crate::text::{
    clone_strings, views, all_digits, before_char, chars_of, char_is_digit, concat, digits_to_u64, digits_value,
    is_ascii_alpha, is_ascii_digit, is_ascii_ws, lemma_digits_value_nonneg, parse_u64, push_char,
    replace, replace_spec, split_first, str_eq, string_of_chars, trim, trim_spec, u64_parse_spec,
};

verus! {

/// A GitLab CI job definition.
/// Durations (`timeout`) are held in whole seconds.
#[derive(Debug)]
pub struct Job {
    pub image: Option<ImageConfig>,
    pub stage: String,
    pub script: Vec<String>,
    pub before_script: Option<Vec<String>>,
    pub after_script: Option<Vec<String>>,
    pub variables: Variables,
    pub rules: Option<Vec<Rule>>,
    pub needs: Option<Vec<Need>>,
    pub dependencies: Option<Vec<String>>,
    pub artifacts: Option<ArtifactConfig>,
    pub cache: Option<Vec<CacheConfig>>,
    pub services: Option<Vec<ServiceConfig>>,
    pub when: When,
    pub allow_failure: AllowFailure,
    pub timeout: Option<u64>,
    pub retry: Option<RetryConfig>,
    pub parallel: Option<ParallelConfig>,
    pub extends: Option<StringOrVec>,
    pub tags: Option<Vec<String>>,
    pub resource_group: Option<String>,
    pub interruptible: Option<bool>,
    pub inherit: Option<InheritConfig>,
    pub coverage: Option<String>,
    pub start_in: Option<String>,
    pub trigger: Option<TriggerConfig>,
    pub manual_confirmation: Option<String>,
}

/// Trigger configuration for downstream/child pipelines.
#[derive(Debug)]
pub enum TriggerConfig {
    Simple(String),
    Detailed { includes: Option<StringOrVec>, project: Option<String>, strategy: Option<String> },
}

/// What a `TriggerConfig` holds.
pub enum TriggerView {
    Simple(Seq<char>),
    Detailed {
        includes: Option<StringOrVecView>,
        project: Option<Seq<char>>,
        strategy: Option<Seq<char>>,
    },
}

impl View for TriggerConfig {
    type V = TriggerView;

    open spec fn view(&self) -> TriggerView {
        match self {
            TriggerConfig::Simple(p) => TriggerView::Simple(p@),
            TriggerConfig::Detailed { includes, project, strategy } => TriggerView::Detailed {
                includes: opt_sv_view(*includes),
                project: opt_view(*project),
                strategy: opt_view(*strategy),
            },
        }
    }
}

impl Clone for TriggerConfig {
    fn clone(&self) -> (r: TriggerConfig)
        ensures
            r@ == self@,
    {
        match self {
            TriggerConfig::Simple(p) => TriggerConfig::Simple(p.clone()),
            TriggerConfig::Detailed { includes, project, strategy } => TriggerConfig::Detailed {
                includes: clone_opt_sv(includes),
                project: clone_opt_string(project),
                strategy: clone_opt_string(strategy),
            },
        }
    }
}

/// What the planner reads of a job.
pub struct JobView {
    pub stage: Seq<char>,
    pub when: When,
    pub allow_failure: AllowFailureView,
    pub variables: Seq<(Seq<char>, VariableView)>,
    pub needs: Option<Seq<NeedView>>,
    pub parallel: Option<ParallelView>,
    pub rules: Option<Seq<RuleView>>,
    pub script: Seq<Seq<char>>,
    pub before_script: Option<Seq<Seq<char>>>,
    pub after_script: Option<Seq<Seq<char>>>,
    pub dependencies: Option<Seq<Seq<char>>>,
    pub image: Option<ImageView>,
    pub services: Option<Seq<ServiceView>>,
    pub artifacts: Option<ArtifactView>,
    pub cache: Option<Seq<CacheView>>,
    pub retry: Option<RetryView>,
    pub timeout: Option<u64>,
    pub interruptible: Option<bool>,
    pub coverage: Option<Seq<char>>,
    pub manual_confirmation: Option<Seq<char>>,
    pub tags: Option<Seq<Seq<char>>>,
    pub extends: Option<StringOrVecView>,
    pub resource_group: Option<Seq<char>>,
    pub inherit: Option<InheritView>,
    pub start_in: Option<Seq<char>>,
    pub trigger: Option<TriggerView>,
}

/// What an `InheritConfig` holds.
pub struct InheritView {
    pub default: Option<ToggleView>,
    pub variables: Option<ToggleView>,
}

/// `inherit:default` of a job.
pub open spec fn inherit_default(j: JobView) -> Option<ToggleView> {
    match j.inherit {
        Some(i) => i.default,
        None => None,
    }
}

/// What an `InheritToggle` holds.
pub enum ToggleView {
    Bool(bool),
    List(Seq<Seq<char>>),
}

pub open spec fn toggle_view(t: Option<InheritToggle>) -> Option<ToggleView> {
    match t {
        Some(InheritToggle::Bool(b)) => Some(ToggleView::Bool(b)),
        Some(InheritToggle::List(v)) => Some(ToggleView::List(views(v@))),
        None => None,
    }
}

pub open spec fn service_names(v: Seq<ServiceConfig>) -> Seq<Seq<char>> {
    v.map_values(|s: ServiceConfig| s.image_name_spec())
}

/// The views of a list of services.
pub open spec fn service_views(v: Seq<ServiceConfig>) -> Seq<ServiceView> {
    v.map_values(|s: ServiceConfig| s@)
}

/// The image names of viewed services.
pub open spec fn view_names(v: Seq<ServiceView>) -> Seq<Seq<char>> {
    v.map_values(|s: ServiceView| s.name)
}

/// The image names of services are those of their views.
pub proof fn lemma_service_names(v: Seq<ServiceConfig>)
    ensures
        view_names(service_views(v)) == service_names(v),
        forall|i: int| 0 <= i < v.len() ==> #[trigger] service_views(v)[i].name == service_names(v)[i],
{
    assert(view_names(service_views(v)) =~= service_names(v));
}

impl View for Job {
    type V = JobView;

    open spec fn view(&self) -> JobView {
        JobView {
            stage: self.stage@,
            when: self.when,
            allow_failure: self.allow_failure@,
            variables: var_entries(self.variables),
            needs: match self.needs {
                Some(v) => Some(need_views(v@)),
                None => None,
            },
            parallel: match self.parallel {
                Some(p) => Some(p@),
                None => None,
            },
            rules: match self.rules {
                Some(v) => Some(rule_views(v@)),
                None => None,
            },
            script: views(self.script@),
            before_script: opt_views(self.before_script),
            after_script: opt_views(self.after_script),
            dependencies: opt_views(self.dependencies),
            image: match self.image {
                Some(i) => Some(i@),
                None => None,
            },
            services: match self.services {
                Some(v) => Some(service_views(v@)),
                None => None,
            },
            artifacts: match self.artifacts {
                Some(a) => Some(a@),
                None => None,
            },
            cache: match self.cache {
                Some(v) => Some(cache_views(v@)),
                None => None,
            },
            retry: match self.retry {
                Some(r) => Some(r@),
                None => None,
            },
            timeout: self.timeout,
            interruptible: self.interruptible,
            coverage: opt_view(self.coverage),
            manual_confirmation: opt_view(self.manual_confirmation),
            tags: opt_views(self.tags),
            extends: opt_sv_view(self.extends),
            resource_group: opt_view(self.resource_group),
            inherit: match self.inherit {
                Some(c) => Some(InheritView { default: toggle_view(c.default), variables: toggle_view(c.variables) }),
                None => None,
            },
            start_in: opt_view(self.start_in),
            trigger: match self.trigger {
                Some(t) => Some(t@),
                None => None,
            },
        }
    }
}

impl Clone for Job {
    /// A copy of the job, keyword by keyword.
    fn clone(&self) -> (r: Job)
        ensures
            r@ == self@,
    {
        Job {
            image: match &self.image {
                Some(i) => Some(i.clone()),
                None => None,
            },
            stage: self.stage.clone(),
            script: clone_strings(&self.script),
            before_script: match &self.before_script {
                Some(v) => Some(clone_strings(v)),
                None => None,
            },
            after_script: match &self.after_script {
                Some(v) => Some(clone_strings(v)),
                None => None,
            },
            variables: vars_clone(&self.variables),
            rules: match &self.rules {
                Some(v) => Some(clone_rules(v)),
                None => None,
            },
            needs: match &self.needs {
                Some(v) => Some(clone_needs(v)),
                None => None,
            },
            dependencies: match &self.dependencies {
                Some(v) => Some(clone_strings(v)),
                None => None,
            },
            artifacts: match &self.artifacts {
                Some(a) => Some(a.clone()),
                None => None,
            },
            cache: match &self.cache {
                Some(v) => Some(clone_caches(v)),
                None => None,
            },
            services: match &self.services {
                Some(v) => Some(clone_services(v)),
                None => None,
            },
            when: self.when,
            allow_failure: self.allow_failure.clone(),
            timeout: self.timeout,
            retry: match &self.retry {
                Some(r) => Some(r.clone()),
                None => None,
            },
            parallel: match &self.parallel {
                Some(p) => Some(p.clone()),
                None => None,
            },
            extends: clone_opt_sv(&self.extends),
            tags: match &self.tags {
                Some(v) => Some(clone_strings(v)),
                None => None,
            },
            resource_group: clone_opt_string(&self.resource_group),
            interruptible: self.interruptible,
            inherit: match &self.inherit {
                Some(c) => Some(
                    InheritConfig { default: clone_toggle(&c.default), variables: clone_toggle(&c.variables) },
                ),
                None => None,
            },
            coverage: clone_opt_string(&self.coverage),
            start_in: clone_opt_string(&self.start_in),
            trigger: match &self.trigger {
                Some(t) => Some(t.clone()),
                None => None,
            },
            manual_confirmation: clone_opt_string(&self.manual_confirmation),
        }
    }
}

/// The stage of a job that names none.
pub fn default_stage() -> (r: String)
    ensures
        r@ == "test"@,
{
    String::from_str("test")
}

/// Image can be a simple string or a detailed config.
#[derive(Debug)]
pub enum ImageConfig {
    Simple(String),
    Detailed { name: String, entrypoint: Option<Vec<String>> },
}

/// What an `ImageConfig` holds.
pub struct ImageView {
    pub name: Seq<char>,
    pub entrypoint: Option<Seq<Seq<char>>>,
    pub detailed: bool,
}

impl View for ImageConfig {
    type V = ImageView;

    open spec fn view(&self) -> ImageView {
        match self {
            ImageConfig::Simple(n) => ImageView { name: n@, entrypoint: None, detailed: false },
            ImageConfig::Detailed { name, entrypoint } => ImageView {
                name: name@,
                entrypoint: opt_views(*entrypoint),
                detailed: true,
            },
        }
    }
}

impl Clone for ImageConfig {
    fn clone(&self) -> (r: ImageConfig)
        ensures
            r@ == self@,
    {
        match self {
            ImageConfig::Simple(n) => ImageConfig::Simple(n.clone()),
            ImageConfig::Detailed { name, entrypoint } => ImageConfig::Detailed {
                name: name.clone(),
                entrypoint: match entrypoint {
                    Some(e) => Some(clone_strings(e)),
                    None => None,
                },
            },
        }
    }
}

/// A copy of an optional string.
pub fn clone_opt_string(o: &Option<String>) -> (r: Option<String>)
    ensures
        opt_view(r) == opt_view(*o),
{
    match o {
        Some(s) => Some(s.clone()),
        None => None,
    }
}

impl ImageConfig {
    pub open spec fn name_spec(&self) -> Seq<char> {
        match self {
            ImageConfig::Simple(n) => n@,
            ImageConfig::Detailed { name, .. } => name@,
        }
    }

    pub fn name(&self) -> (r: &str)
        ensures
            r@ == self.name_spec(),
    {
        match self {
            ImageConfig::Simple(name) => name.as_str(),
            ImageConfig::Detailed { name, .. } => name.as_str(),
        }
    }

    pub fn entrypoint(&self) -> (r: Option<&[String]>)
        ensures
            match self {
                ImageConfig::Simple(_) => r is None,
                ImageConfig::Detailed { entrypoint, .. } => match entrypoint {
                    Some(e) => r is Some && r->0@ == e@,
                    None => r is None,
                },
            },
    {
        match self {
            ImageConfig::Simple(_) => None,
            ImageConfig::Detailed { entrypoint, .. } => match entrypoint {
                Some(e) => Some(e.as_slice()),
                None => None,
            },
        }
    }
}

/// Job dependency via `needs:`.
#[derive(Debug)]
pub enum Need {
    Simple(String),
    Detailed { job: String, artifacts: bool, optional: bool },
}

/// What a `Need` holds.
pub struct NeedView {
    pub job: Seq<char>,
    pub artifacts: bool,
    pub optional: bool,
    pub detailed: bool,
}

impl View for Need {
    type V = NeedView;

    open spec fn view(&self) -> NeedView {
        match self {
            Need::Simple(n) => NeedView { job: n@, artifacts: true, optional: false, detailed: false },
            Need::Detailed { job, artifacts, optional } => NeedView {
                job: job@,
                artifacts: *artifacts,
                optional: *optional,
                detailed: true,
            },
        }
    }
}

impl Clone for Need {
    fn clone(&self) -> (r: Need)
        ensures
            r@ == self@,
    {
        match self {
            Need::Simple(n) => Need::Simple(n.clone()),
            Need::Detailed { job, artifacts, optional } => Need::Detailed {
                job: job.clone(),
                artifacts: *artifacts,
                optional: *optional,
            },
        }
    }
}

/// The views of a list of needs.
pub open spec fn need_views(v: Seq<Need>) -> Seq<NeedView> {
    v.map_values(|n: Need| n@)
}

/// A copy of a list of needs.
pub fn clone_needs(v: &Vec<Need>) -> (r: Vec<Need>)
    ensures
        need_views(r@) == need_views(v@),
{
    let mut r: Vec<Need> = Vec::new();
    let mut i: usize = 0;
    while i < v.len()
        invariant
            i <= v@.len(),
            r@.len() == i,
            forall|j: int| 0 <= j < i ==> (#[trigger] r@[j])@ == v@[j]@,
        decreases v@.len() - i,
    {
        r.push(v[i].clone());
        i = i + 1;
    }
    assert(need_views(r@) =~= need_views(v@));
    r
}

impl Need {
    pub open spec fn job_name_spec(&self) -> Seq<char> {
        match self {
            Need::Simple(n) => n@,
            Need::Detailed { job, .. } => job@,
        }
    }

    pub open spec fn wants_artifacts_spec(&self) -> bool {
        match self {
            Need::Simple(_) => true,
            Need::Detailed { artifacts, .. } => *artifacts,
        }
    }

    pub open spec fn is_optional_spec(&self) -> bool {
        match self {
            Need::Simple(_) => false,
            Need::Detailed { optional, .. } => *optional,
        }
    }

    pub fn job_name(&self) -> (r: &str)
        ensures
            r@ == self.job_name_spec(),
    {
        match self {
            Need::Simple(name) => name.as_str(),
            Need::Detailed { job, .. } => job.as_str(),
        }
    }

    pub fn wants_artifacts(&self) -> (r: bool)
        ensures
            r == self.wants_artifacts_spec(),
    {
        match self {
            Need::Simple(_) => true,
            Need::Detailed { artifacts, .. } => *artifacts,
        }
    }

    /// Whether this dependency is optional (won't fail if the dep doesn't exist).
    pub fn is_optional(&self) -> (r: bool)
        ensures
            r == self.is_optional_spec(),
    {
        match self {
            Need::Simple(_) => false,
            Need::Detailed { optional, .. } => *optional,
        }
    }
}

/// `needs:artifacts` defaults to true.
pub fn default_true() -> (r: bool)
    ensures
        r,
{
    true
}

/// When to execute a job.
#[derive(Debug, Clone, Copy, PartialEq, Eq, Structural)]
pub enum When {
    OnSuccess,
    OnFailure,
    Always,
    Manual,
    Delayed,
    Never,
}

impl Default for When {
    fn default() -> (r: When)
        ensures
            r == When::OnSuccess,
    {
        When::OnSuccess
    }
}

/// Whether a job is allowed to fail.
#[derive(Debug)]
pub enum AllowFailure {
    Bool(bool),
    ExitCodes { exit_codes: Vec<i32> },
}

/// What an `AllowFailure` holds.
pub enum AllowFailureView {
    Bool(bool),
    ExitCodes(Seq<i32>),
}

impl View for AllowFailure {
    type V = AllowFailureView;

    open spec fn view(&self) -> AllowFailureView {
        match self {
            AllowFailure::Bool(b) => AllowFailureView::Bool(*b),
            AllowFailure::ExitCodes { exit_codes } => AllowFailureView::ExitCodes(exit_codes@),
        }
    }
}

impl Default for AllowFailure {
    fn default() -> (r: AllowFailure)
        ensures
            r == AllowFailure::Bool(false),
    {
        AllowFailure::Bool(false)
    }
}

impl Clone for AllowFailure {
    fn clone(&self) -> (r: AllowFailure)
        ensures
            r@ == self@,
    {
        match self {
            AllowFailure::Bool(b) => AllowFailure::Bool(*b),
            AllowFailure::ExitCodes { exit_codes } => {
                let mut v: Vec<i32> = Vec::new();
                let mut i: usize = 0;
                while i < exit_codes.len()
                    invariant
                        i <= exit_codes@.len(),
                        v@ == exit_codes@.subrange(0, i as int),
                    decreases exit_codes@.len() - i,
                {
                    v.push(exit_codes[i]);
                    i = i + 1;
                    assert(v@ =~= exit_codes@.subrange(0, i as int));
                }
                assert(v@ =~= exit_codes@);
                AllowFailure::ExitCodes { exit_codes: v }
            },
        }
    }
}

/// Whether `x` occurs in `v`.
fn vec_contains_i32(v: &Vec<i32>, x: i32) -> (r: bool)
    ensures
        r == v@.contains(x),
{
    let mut i: usize = 0;
    while i < v.len()
        invariant
            i <= v@.len(),
            forall|j: int| 0 <= j < i ==> v@[j] != x,
        decreases v@.len() - i,
    {
        if v[i] == x {
            assert(v@[i as int] == x);
            return true;
        }
        i = i + 1;
    }
    false
}

impl AllowFailure {
    pub open spec fn is_allowed_spec(&self, exit_code: i32) -> bool {
        match self {
            AllowFailure::Bool(b) => *b,
            AllowFailure::ExitCodes { exit_codes } => exit_codes@.contains(exit_code),
        }
    }

    pub fn is_allowed(&self, exit_code: i32) -> (r: bool)
        ensures
            r == self.is_allowed_spec(exit_code),
    {
        match self {
            AllowFailure::Bool(allowed) => *allowed,
            AllowFailure::ExitCodes { exit_codes } => vec_contains_i32(exit_codes, exit_code),
        }
    }
}

/// Artifact configuration.
#[derive(Debug)]
pub struct ArtifactConfig {
    pub paths: Vec<String>,
    pub exclude: Vec<String>,
    pub expire_in: Option<String>,
    pub when_upload: Option<ArtifactWhen>,
    pub name: Option<String>,
    pub untracked: bool,
    pub reports: Option<ArtifactReports>,
    pub public: Option<bool>,
    pub access: Option<String>,
    pub expose_as: Option<String>,
}

impl Default for ArtifactConfig {
    fn default() -> (r: ArtifactConfig)
        ensures
            r.paths@.len() == 0,
            r.exclude@.len() == 0,
            r.expire_in is None,
            r.when_upload is None,
            r.name is None,
            !r.untracked,
            r.reports is None,
            r.public is None,
            r.access is None,
            r.expose_as is None,
    {
        ArtifactConfig {
            paths: Vec::new(),
            exclude: Vec::new(),
            expire_in: None,
            when_upload: None,
            name: None,
            untracked: false,
            reports: None,
            public: None,
            access: None,
            expose_as: None,
        }
    }
}

/// What an `ArtifactConfig` holds.
pub struct ArtifactView {
    pub paths: Seq<Seq<char>>,
    pub exclude: Seq<Seq<char>>,
    pub expire_in: Option<Seq<char>>,
    pub when_upload: Option<ArtifactWhen>,
    pub name: Option<Seq<char>>,
    pub untracked: bool,
    pub reports: Option<ReportsView>,
    pub public: Option<bool>,
    pub access: Option<Seq<char>>,
    pub expose_as: Option<Seq<char>>,
}

impl View for ArtifactConfig {
    type V = ArtifactView;

    open spec fn view(&self) -> ArtifactView {
        ArtifactView {
            paths: views(self.paths@),
            exclude: views(self.exclude@),
            expire_in: opt_view(self.expire_in),
            when_upload: self.when_upload,
            name: opt_view(self.name),
            untracked: self.untracked,
            reports: match self.reports {
                Some(r) => Some(r@),
                None => None,
            },
            public: self.public,
            access: opt_view(self.access),
            expose_as: opt_view(self.expose_as),
        }
    }
}

impl Clone for ArtifactConfig {
    fn clone(&self) -> (r: ArtifactConfig)
        ensures
            r@ == self@,
    {
        ArtifactConfig {
            paths: clone_strings(&self.paths),
            exclude: clone_strings(&self.exclude),
            expire_in: clone_opt_string(&self.expire_in),
            when_upload: self.when_upload,
            name: clone_opt_string(&self.name),
            untracked: self.untracked,
            reports: match &self.reports {
                Some(r) => Some(r.clone()),
                None => None,
            },
            public: self.public,
            access: clone_opt_string(&self.access),
            expose_as: clone_opt_string(&self.expose_as),
        }
    }
}

/// What an `ArtifactReports` holds.
pub struct ReportsView {
    pub junit: Option<StringOrVecView>,
    pub coverage_report: Option<YamlView>,
    pub codequality: Option<StringOrVecView>,
    pub sast: Option<StringOrVecView>,
    pub dependency_scanning: Option<StringOrVecView>,
    pub container_scanning: Option<StringOrVecView>,
    pub dast: Option<StringOrVecView>,
    pub license_scanning: Option<StringOrVecView>,
    pub dotenv: Option<StringOrVecView>,
    pub terraform: Option<StringOrVecView>,
    pub metrics: Option<StringOrVecView>,
    pub requirements: Option<StringOrVecView>,
    pub performance: Option<StringOrVecView>,
    pub browser_performance: Option<StringOrVecView>,
    pub load_performance: Option<StringOrVecView>,
    pub accessibility: Option<StringOrVecView>,
    pub annotations: Option<StringOrVecView>,
    pub cyclonedx: Option<StringOrVecView>,
}

impl View for ArtifactReports {
    type V = ReportsView;

    open spec fn view(&self) -> ReportsView {
        ReportsView {
            junit: opt_sv_view(self.junit),
            coverage_report: match self.coverage_report {
                Some(y) => Some(y@),
                None => None,
            },
            codequality: opt_sv_view(self.codequality),
            sast: opt_sv_view(self.sast),
            dependency_scanning: opt_sv_view(self.dependency_scanning),
            container_scanning: opt_sv_view(self.container_scanning),
            dast: opt_sv_view(self.dast),
            license_scanning: opt_sv_view(self.license_scanning),
            dotenv: opt_sv_view(self.dotenv),
            terraform: opt_sv_view(self.terraform),
            metrics: opt_sv_view(self.metrics),
            requirements: opt_sv_view(self.requirements),
            performance: opt_sv_view(self.performance),
            browser_performance: opt_sv_view(self.browser_performance),
            load_performance: opt_sv_view(self.load_performance),
            accessibility: opt_sv_view(self.accessibility),
            annotations: opt_sv_view(self.annotations),
            cyclonedx: opt_sv_view(self.cyclonedx),
        }
    }
}

impl Clone for ArtifactReports {
    fn clone(&self) -> (r: ArtifactReports)
        ensures
            r@ == self@,
    {
        ArtifactReports {
            junit: clone_opt_sv(&self.junit),
            coverage_report: match &self.coverage_report {
                Some(y) => Some(y.deep_copy()),
                None => None,
            },
            codequality: clone_opt_sv(&self.codequality),
            sast: clone_opt_sv(&self.sast),
            dependency_scanning: clone_opt_sv(&self.dependency_scanning),
            container_scanning: clone_opt_sv(&self.container_scanning),
            dast: clone_opt_sv(&self.dast),
            license_scanning: clone_opt_sv(&self.license_scanning),
            dotenv: clone_opt_sv(&self.dotenv),
            terraform: clone_opt_sv(&self.terraform),
            metrics: clone_opt_sv(&self.metrics),
            requirements: clone_opt_sv(&self.requirements),
            performance: clone_opt_sv(&self.performance),
            browser_performance: clone_opt_sv(&self.browser_performance),
            load_performance: clone_opt_sv(&self.load_performance),
            accessibility: clone_opt_sv(&self.accessibility),
            annotations: clone_opt_sv(&self.annotations),
            cyclonedx: clone_opt_sv(&self.cyclonedx),
        }
    }
}

/// Artifact report types.
#[derive(Debug)]
pub struct ArtifactReports {
    pub junit: Option<StringOrVec>,
    pub coverage_report: Option<Yaml>,
    pub codequality: Option<StringOrVec>,
    pub sast: Option<StringOrVec>,
    pub dependency_scanning: Option<StringOrVec>,
    pub container_scanning: Option<StringOrVec>,
    pub dast: Option<StringOrVec>,
    pub license_scanning: Option<StringOrVec>,
    pub dotenv: Option<StringOrVec>,
    pub terraform: Option<StringOrVec>,
    pub metrics: Option<StringOrVec>,
    pub requirements: Option<StringOrVec>,
    pub performance: Option<StringOrVec>,
    pub browser_performance: Option<StringOrVec>,
    pub load_performance: Option<StringOrVec>,
    pub accessibility: Option<StringOrVec>,
    pub annotations: Option<StringOrVec>,
    pub cyclonedx: Option<StringOrVec>,
}

#[derive(Debug, Clone, Copy, PartialEq, Eq, Structural)]
pub enum ArtifactWhen {
    OnSuccess,
    OnFailure,
    Always,
}

/// Cache configuration.
#[derive(Debug)]
pub struct CacheConfig {
    pub key: Option<CacheKey>,
    pub paths: Vec<String>,
    pub policy: Option<CachePolicy>,
    pub untracked: bool,
    pub fallback_keys: Vec<String>,
    pub when_upload: Option<CacheWhen>,
}

/// When to upload cache.
#[derive(Debug, Clone, Copy, PartialEq, Eq, Structural)]
pub enum CacheWhen {
    OnSuccess,
    OnFailure,
    Always,
}

impl Default for CacheWhen {
    fn default() -> (r: CacheWhen)
        ensures
            r == CacheWhen::OnSuccess,
    {
        CacheWhen::OnSuccess
    }
}

#[derive(Debug)]
pub enum CacheKey {
    Simple(String),
    Detailed { files: Vec<String>, prefix: Option<String>, files_commits: Option<bool> },
}

/// What a `CacheKey` holds.
pub enum CacheKeyView {
    Simple(Seq<char>),
    Detailed { files: Seq<Seq<char>>, prefix: Option<Seq<char>>, files_commits: Option<bool> },
}

impl View for CacheKey {
    type V = CacheKeyView;

    open spec fn view(&self) -> CacheKeyView {
        match self {
            CacheKey::Simple(k) => CacheKeyView::Simple(k@),
            CacheKey::Detailed { files, prefix, files_commits } => CacheKeyView::Detailed {
                files: views(files@),
                prefix: opt_view(*prefix),
                files_commits: *files_commits,
            },
        }
    }
}

impl Clone for CacheKey {
    fn clone(&self) -> (r: CacheKey)
        ensures
            r@ == self@,
    {
        match self {
            CacheKey::Simple(k) => CacheKey::Simple(k.clone()),
            CacheKey::Detailed { files, prefix, files_commits } => CacheKey::Detailed {
                files: clone_strings(files),
                prefix: clone_opt_string(prefix),
                files_commits: *files_commits,
            },
        }
    }
}

/// What a `CacheConfig` holds.
pub struct CacheView {
    pub key: Option<CacheKeyView>,
    pub paths: Seq<Seq<char>>,
    pub policy: Option<CachePolicy>,
    pub untracked: bool,
    pub fallback_keys: Seq<Seq<char>>,
    pub when_upload: Option<CacheWhen>,
}

impl View for CacheConfig {
    type V = CacheView;

    open spec fn view(&self) -> CacheView {
        CacheView {
            key: match self.key {
                Some(k) => Some(k@),
                None => None,
            },
            paths: views(self.paths@),
            policy: self.policy,
            untracked: self.untracked,
            fallback_keys: views(self.fallback_keys@),
            when_upload: self.when_upload,
        }
    }
}

impl Clone for CacheConfig {
    fn clone(&self) -> (r: CacheConfig)
        ensures
            r@ == self@,
    {
        CacheConfig {
            key: match &self.key {
                Some(k) => Some(k.clone()),
                None => None,
            },
            paths: clone_strings(&self.paths),
            policy: self.policy,
            untracked: self.untracked,
            fallback_keys: clone_strings(&self.fallback_keys),
            when_upload: self.when_upload,
        }
    }
}

/// The views of a list of cache configurations.
pub open spec fn cache_views(v: Seq<CacheConfig>) -> Seq<CacheView> {
    v.map_values(|c: CacheConfig| c@)
}

/// Copies of cache configurations.
pub fn clone_caches(v: &Vec<CacheConfig>) -> (r: Vec<CacheConfig>)
    ensures
        cache_views(r@) == cache_views(v@),
{
    let mut out: Vec<CacheConfig> = Vec::new();
    let mut i: usize = 0;
    while i < v.len()
        invariant
            i <= v@.len(),
            out@.len() == i,
            forall|j: int| 0 <= j < i ==> (#[trigger] out@[j])@ == v@[j]@,
        decreases v@.len() - i,
    {
        out.push(v[i].clone());
        i = i + 1;
    }
    assert(cache_views(out@) =~= cache_views(v@));
    out
}

#[derive(Debug, Clone, Copy, PartialEq, Eq, Structural)]
pub enum CachePolicy {
    PullPush,
    Pull,
    Push,
}

impl Default for CachePolicy {
    fn default() -> (r: CachePolicy)
        ensures
            r == CachePolicy::PullPush,
    {
        CachePolicy::PullPush
    }
}

/// Service container configuration.
#[derive(Debug)]
pub enum ServiceConfig {
    Simple(String),
    Detailed {
        name: String,
        alias: Option<String>,
        entrypoint: Option<Vec<String>>,
        command: Option<Vec<String>>,
        variables: Variables,
    },
}

/// The image name without its tag (everything before the first `:`).
pub open spec fn untagged(image: Seq<char>) -> Seq<char> {
    before_char(image, ':')
}

/// What a `ServiceConfig` holds.
pub struct ServiceView {
    pub name: Seq<char>,
    pub alias: Option<Seq<char>>,
    pub entrypoint: Option<Seq<Seq<char>>>,
    pub command: Option<Seq<Seq<char>>>,
    pub variables: Seq<(Seq<char>, VariableView)>,
    pub detailed: bool,
}

impl View for ServiceConfig {
    type V = ServiceView;

    open spec fn view(&self) -> ServiceView {
        match self {
            ServiceConfig::Simple(n) => ServiceView {
                name: n@,
                alias: None,
                entrypoint: None,
                command: None,
                variables: Seq::empty(),
                detailed: false,
            },
            ServiceConfig::Detailed { name, alias, entrypoint, command, variables } => ServiceView {
                name: name@,
                alias: opt_view(*alias),
                entrypoint: opt_views(*entrypoint),
                command: opt_views(*command),
                variables: var_entries(*variables),
                detailed: true,
            },
        }
    }
}

impl Clone for ServiceConfig {
    fn clone(&self) -> (r: ServiceConfig)
        ensures
            r@ == self@,
    {
        match self {
            ServiceConfig::Simple(n) => ServiceConfig::Simple(n.clone()),
            ServiceConfig::Detailed { name, alias, entrypoint, command, variables } => {
                ServiceConfig::Detailed {
                    name: name.clone(),
                    alias: clone_opt_string(alias),
                    entrypoint: match entrypoint {
                        Some(e) => Some(clone_strings(e)),
                        None => None,
                    },
                    command: match command {
                        Some(c) => Some(clone_strings(c)),
                        None => None,
                    },
                    variables: vars_clone(variables),
                }
            },
        }
    }
}

/// Copies of services.
pub fn clone_services(v: &Vec<ServiceConfig>) -> (r: Vec<ServiceConfig>)
    ensures
        service_views(r@) == service_views(v@),
        service_names(r@) == service_names(v@),
{
    let mut out: Vec<ServiceConfig> = Vec::new();
    let mut i: usize = 0;
    while i < v.len()
        invariant
            i <= v@.len(),
            out@.len() == i,
            forall|j: int| 0 <= j < i ==> (#[trigger] out@[j])@ == v@[j]@,
        decreases v@.len() - i,
    {
        out.push(v[i].clone());
        i = i + 1;
    }
    assert(service_views(out@) =~= service_views(v@));
    assert(service_names(out@) =~= service_names(v@));
    out
}

impl ServiceConfig {
    pub open spec fn image_name_spec(&self) -> Seq<char> {
        match self {
            ServiceConfig::Simple(n) => n@,
            ServiceConfig::Detailed { name, .. } => name@,
        }
    }

    /// The hostname under which the service is reachable: its alias, or the
    /// image name without tag with every `/` replaced by `__`.
    pub open spec fn hostname_spec(&self) -> Seq<char> {
        match self {
            ServiceConfig::Detailed { alias: Some(a), .. } => a@,
            _ => replace_spec(untagged(self.image_name_spec()), seq!['/'], seq!['_', '_']),
        }
    }

    pub fn image_name(&self) -> (r: &str)
        ensures
            r@ == self.image_name_spec(),
    {
        match self {
            ServiceConfig::Simple(name) => name.as_str(),
            ServiceConfig::Detailed { name, .. } => name.as_str(),
        }
    }

    /// Derive the service hostname.
    pub fn hostname(&self) -> (r: String)
        ensures
            r@ == self.hostname_spec(),
    {
        match self {
            ServiceConfig::Detailed { alias: Some(alias), .. } => alias.clone(),
            _ => {
                let image = self.image_name();
                let without_tag = split_first(image, ':');
                proof {
                    reveal_strlit("/");
                    reveal_strlit("__");
                    assert("/"@ =~= seq!['/']);
                    assert("__"@ =~= seq!['_', '_']);
                }
                replace(without_tag.as_str(), "/", "__")
            },
        }
    }
}

/// The secondary hostname of a service: the image name without tag with every
/// `/` replaced by `-`.
pub open spec fn secondary_hostname_spec(image: Seq<char>) -> Seq<char> {
    replace_spec(untagged(image), seq!['/'], seq!['-'])
}

/// Derive the secondary hostname from an image name.
pub fn secondary_hostname(image: &str) -> (r: String)
    ensures
        r@ == secondary_hostname_spec(image@),
{
    let without_tag = split_first(image, ':');
    proof {
        reveal_strlit("/");
        reveal_strlit("-");
        assert("/"@ =~= seq!['/']);
        assert("-"@ =~= seq!['-']);
    }
    replace(without_tag.as_str(), "/", "-")
}

/// Retry configuration.
#[derive(Debug)]
pub enum RetryConfig {
    Count(u32),
    Detailed { max: u32, when_retry: Vec<String> },
}

/// What a `RetryConfig` holds.
pub enum RetryView {
    Count(u32),
    Detailed { max: u32, when_retry: Seq<Seq<char>> },
}

impl View for RetryConfig {
    type V = RetryView;

    open spec fn view(&self) -> RetryView {
        match self {
            RetryConfig::Count(n) => RetryView::Count(*n),
            RetryConfig::Detailed { max, when_retry } => RetryView::Detailed {
                max: *max,
                when_retry: views(when_retry@),
            },
        }
    }
}

impl Clone for RetryConfig {
    fn clone(&self) -> (r: RetryConfig)
        ensures
            r@ == self@,
    {
        match self {
            RetryConfig::Count(n) => RetryConfig::Count(*n),
            RetryConfig::Detailed { max, when_retry } => RetryConfig::Detailed {
                max: *max,
                when_retry: clone_strings(when_retry),
            },
        }
    }
}

impl RetryConfig {
    pub open spec fn max_retries_spec(&self) -> u32 {
        match self {
            RetryConfig::Count(n) => *n,
            RetryConfig::Detailed { max, .. } => *max,
        }
    }

    /// Retry happens on any failure for a bare count, or when `retry:when` is empty,
    /// contains `always`, or contains the failure type.
    pub open spec fn should_retry_spec(&self, failure_type: Seq<char>) -> bool {
        match self {
            RetryConfig::Count(_) => true,
            RetryConfig::Detailed { when_retry, .. } => {
                ||| when_retry@.len() == 0
                ||| exists|i: int|
                    0 <= i < when_retry@.len() && (when_retry@[i]@ == "always"@
                        || when_retry@[i]@ == failure_type)
            },
        }
    }

    pub fn max_retries(&self) -> (r: u32)
        ensures
            r == self.max_retries_spec(),
    {
        match self {
            RetryConfig::Count(n) => *n,
            RetryConfig::Detailed { max, .. } => *max,
        }
    }

    /// Check if retry should happen for a given failure type.
    pub fn should_retry(&self, failure_type: &str) -> (r: bool)
        ensures
            r == self.should_retry_spec(failure_type@),
    {
        match self {
            RetryConfig::Count(_) => true,
            RetryConfig::Detailed { when_retry, .. } => {
                when_retry.len() == 0 || any_always_or(when_retry, failure_type)
            },
        }
    }
}

/// Whether some entry is `always` or equals `failure_type`.
fn any_always_or(v: &Vec<String>, failure_type: &str) -> (r: bool)
    ensures
        r == exists|i: int|
            0 <= i < v@.len() && (v@[i]@ == "always"@ || v@[i]@ == failure_type@),
{
    let mut i: usize = 0;
    while i < v.len()
        invariant
            i <= v@.len(),
            forall|j: int| 0 <= j < i ==> !(v@[j]@ == "always"@ || v@[j]@ == failure_type@),
        decreases v@.len() - i,
    {
        let w = v[i].as_str();
        if str_eq(w, "always") || str_eq(w, failure_type) {
            assert(v@[i as int]@ == "always"@ || v@[i as int]@ == failure_type@);
            return true;
        }
        i = i + 1;
    }
    false
}

/// Parallel job configuration.
#[derive(Debug)]
pub enum ParallelConfig {
    Count(u32),
    Matrix { matrix: Vec<IndexMap<String, StringOrVec>> },
}

/// What a `ParallelConfig` holds: a count, or the rows of the matrix, each an ordered
/// list of variable names with the values they range over.
pub enum ParallelView {
    Count(u32),
    Matrix(Seq<Seq<(Seq<char>, Seq<Seq<char>>)>>),
}

pub open spec fn matrix_rows(m: Seq<IndexMap<String, StringOrVec>>) -> Seq<
    Seq<(Seq<char>, Seq<Seq<char>>)>,
> {
    m.map_values(|row: IndexMap<String, StringOrVec>| matrix_entries(row))
}

impl View for ParallelConfig {
    type V = ParallelView;

    open spec fn view(&self) -> ParallelView {
        match self {
            ParallelConfig::Count(n) => ParallelView::Count(*n),
            ParallelConfig::Matrix { matrix } => ParallelView::Matrix(matrix_rows(matrix@)),
        }
    }
}

impl Clone for ParallelConfig {
    fn clone(&self) -> (r: ParallelConfig)
        ensures
            r@ == self@,
    {
        match self {
            ParallelConfig::Count(n) => ParallelConfig::Count(*n),
            ParallelConfig::Matrix { matrix } => {
                let mut rows: Vec<IndexMap<String, StringOrVec>> = Vec::new();
                let mut i: usize = 0;
                while i < matrix.len()
                    invariant
                        i <= matrix@.len(),
                        rows@.len() == i,
                        forall|j: int|
                            0 <= j < i ==> matrix_entries(#[trigger] rows@[j]) == matrix_entries(
                                matrix@[j],
                            ),
                    decreases matrix@.len() - i,
                {
                    rows.push(matrix_clone(&matrix[i]));
                    i = i + 1;
                }
                assert(matrix_rows(rows@) =~= matrix_rows(matrix@));
                ParallelConfig::Matrix { matrix: rows }
            },
        }
    }
}

/// A value that can be either a single string or a list of strings.
#[derive(Debug)]
pub enum StringOrVec {
    Single(String),
    Multiple(Vec<String>),
}

/// What a `StringOrVec` holds.
pub enum StringOrVecView {
    Single(Seq<char>),
    Multiple(Seq<Seq<char>>),
}

impl View for StringOrVec {
    type V = StringOrVecView;

    open spec fn view(&self) -> StringOrVecView {
        match self {
            StringOrVec::Single(s) => StringOrVecView::Single(s@),
            StringOrVec::Multiple(v) => StringOrVecView::Multiple(views(v@)),
        }
    }
}

impl Clone for StringOrVec {
    fn clone(&self) -> (r: StringOrVec)
        ensures
            r@ == self@,
            r.items() == self.items(),
    {
        match self {
            StringOrVec::Single(s) => StringOrVec::Single(s.clone()),
            StringOrVec::Multiple(v) => {
                let c = clone_strings(v);
                assert(c@.map_values(|x: String| x@) =~= v@.map_values(|x: String| x@));
                StringOrVec::Multiple(c)
            },
        }
    }
}

pub open spec fn opt_sv_view(o: Option<StringOrVec>) -> Option<StringOrVecView> {
    match o {
        Some(s) => Some(s@),
        None => None,
    }
}

/// A copy of an optional string-or-list.
pub fn clone_opt_sv(o: &Option<StringOrVec>) -> (r: Option<StringOrVec>)
    ensures
        opt_sv_view(r) == opt_sv_view(*o),
{
    match o {
        Some(s) => Some(s.clone()),
        None => None,
    }
}

impl StringOrVec {
    /// The strings held, in order.
    pub open spec fn items(&self) -> Seq<Seq<char>> {
        match self {
            StringOrVec::Single(s) => seq![s@],
            StringOrVec::Multiple(v) => v@.map_values(|x: String| x@),
        }
    }

    pub fn into_vec(self) -> (r: Vec<String>)
        ensures
            r@.map_values(|x: String| x@) == self.items(),
    {
        match self {
            StringOrVec::Single(s) => {
                let mut v = Vec::new();
                v.push(s);
                assert(v@.map_values(|x: String| x@) =~= self.items());
                v
            },
            StringOrVec::Multiple(v) => v,
        }
    }

    pub fn as_slice(&self) -> (r: Vec<&str>)
        ensures
            r@.map_values(|x: &str| x@) == self.items(),
    {
        match self {
            StringOrVec::Single(s) => {
                let mut v: Vec<&str> = Vec::new();
                v.push(s.as_str());
                assert(v@.map_values(|x: &str| x@) =~= self.items());
                v
            },
            StringOrVec::Multiple(items) => {
                let mut v: Vec<&str> = Vec::new();
                let mut i: usize = 0;
                while i < items.len()
                    invariant
                        i <= items@.len(),
                        v@.len() == i,
                        forall|j: int| 0 <= j < i ==> (#[trigger] v@[j])@ == items@[j]@,
                    decreases items@.len() - i,
                {
                    v.push(items[i].as_str());
                    i = i + 1;
                }
                assert(v@.map_values(|x: &str| x@) =~= self.items());
                v
            },
        }
    }
}

/// Control what global settings a job inherits.
#[derive(Debug, Clone)]
pub struct InheritConfig {
    pub default: Option<InheritToggle>,
    pub variables: Option<InheritToggle>,
}

#[derive(Debug, Clone)]
pub enum InheritToggle {
    Bool(bool),
    List(Vec<String>),
}

/// A copy of an inherit toggle.
pub fn clone_toggle(t: &Option<InheritToggle>) -> (r: Option<InheritToggle>)
    ensures
        toggle_view(r) == toggle_view(*t),
{
    match t {
        Some(InheritToggle::Bool(b)) => Some(InheritToggle::Bool(*b)),
        Some(InheritToggle::List(v)) => Some(InheritToggle::List(clone_strings(v))),
        None => None,
    }
}

/// Default job settings applied to all jobs (`timeout` in seconds).
#[derive(Debug, Clone)]
pub struct JobDefaults {
    pub image: Option<ImageConfig>,
    pub before_script: Option<Vec<String>>,
    pub after_script: Option<Vec<String>>,
    pub services: Option<Vec<ServiceConfig>>,
    pub cache: Option<Vec<CacheConfig>>,
    pub artifacts: Option<ArtifactConfig>,
    pub retry: Option<RetryConfig>,
    pub timeout: Option<u64>,
    pub interruptible: Option<bool>,
    pub tags: Option<Vec<String>>,
}

impl Default for JobDefaults {
    fn default() -> (r: JobDefaults)
        ensures
            r.image is None,
            r.before_script is None,
            r.after_script is None,
            r.services is None,
            r.cache is None,
            r.artifacts is None,
            r.retry is None,
            r.timeout is None,
            r.interruptible is None,
            r.tags is None,
    {
        JobDefaults {
            image: None,
            before_script: None,
            after_script: None,
            services: None,
            cache: None,
            artifacts: None,
            retry: None,
            timeout: None,
            interruptible: None,
            tags: None,
        }
    }
}

// ---------------------------------------------------------------------------
// Durations
// ---------------------------------------------------------------------------
/// `char::is_alphabetic`: whether the character has the Unicode `Alphabetic` property.
pub uninterp spec fn alphabetic(c: char) -> bool;

/// `char::is_alphabetic`. Besides naming the result, the contract states only that
/// ASCII letters are alphabetic and ASCII digits and whitespace are not.
#[verifier::external_body]
pub fn char_is_alphabetic(c: char) -> (r: bool)
    ensures
        r == alphabetic(c),
        is_ascii_alpha(c) ==> r,
        is_ascii_digit(c) || is_ascii_ws(c) ==> !r,
{
    c.is_alphabetic()
}

/// Where a duration scan stops: the total so far, or the reason it failed together
/// with the total reached before failing.
pub enum DurationScan {
    Done(int),
    InvalidNumber(int),
    UnknownUnit(Seq<char>, int),
}

/// The seconds a unit word stands for: `h`, `hr`, `hrs`, `hour`, `hours` (and `H`),
/// `m`, `min`, `mins`, `minute`, `minutes` (and `M`), `s`, `sec`, `secs`, `second`,
/// `seconds` (and `S`); 0 for any other word.
pub open spec fn word_seconds(w: Seq<char>) -> int {
    if w == "h"@ || w == "H"@ || w == "hr"@ || w == "hrs"@ || w == "hour"@ || w == "hours"@ {
        3600
    } else if w == "m"@ || w == "M"@ || w == "min"@ || w == "mins"@ || w == "minute"@ || w
        == "minutes"@ {
        60
    } else if w == "s"@ || w == "S"@ || w == "sec"@ || w == "secs"@ || w == "second"@ || w
        == "seconds"@ {
        1
    } else {
        0
    }
}

/// A number closed by its unit word: the number must be there and fit in `u64`, and
/// the word must name a unit.
pub open spec fn close_unit(total: int, buf: Seq<char>, word: Seq<char>) -> DurationScan {
    if buf.len() == 0 || digits_value(buf) > u64::MAX {
        DurationScan::InvalidNumber(total)
    } else if word_seconds(word) == 0 {
        DurationScan::UnknownUnit(word, total)
    } else {
        DurationScan::Done(total + digits_value(buf) * word_seconds(word))
    }
}

/// Scans `s` with the running `total`, the pending digits `buf` and the pending unit
/// word `word`: digits are buffered, alphabetic characters form the unit word, and a
/// word ends at the first character that is not alphabetic (or at the end), closing
/// the buffered number with its unit; other characters are skipped, and a number left
/// at the end without a unit counts as seconds.
pub open spec fn duration_scan(s: Seq<char>, total: int, buf: Seq<char>, word: Seq<char>) -> DurationScan
    decreases s.len(), word.len(),
{
    if s.len() == 0 {
        if word.len() > 0 {
            close_unit(total, buf, word)
        } else if buf.len() == 0 {
            DurationScan::Done(total)
        } else if digits_value(buf) > u64::MAX {
            DurationScan::InvalidNumber(total)
        } else {
            DurationScan::Done(total + digits_value(buf))
        }
    } else {
        let c = s[0];
        if word.len() > 0 && !alphabetic(c) {
            match close_unit(total, buf, word) {
                DurationScan::Done(t) => duration_scan(s, t, Seq::empty(), Seq::empty()),
                other => other,
            }
        } else if is_ascii_digit(c) {
            duration_scan(s.drop_first(), total, buf.push(c), word)
        } else if alphabetic(c) {
            duration_scan(s.drop_first(), total, buf, word.push(c))
        } else {
            duration_scan(s.drop_first(), total, buf, word)
        }
    }
}

pub open spec fn scan_total(d: DurationScan) -> int {
    match d {
        DurationScan::Done(t) => t,
        DurationScan::InvalidNumber(t) => t,
        DurationScan::UnknownUnit(_, t) => t,
    }
}

/// The inputs on which `parse_duration` completes without arithmetic overflow:
/// every running total stays within `u64`.
pub open spec fn duration_in_range(s: Seq<char>) -> bool {
    scan_total(duration_scan(trim_spec(s), 0, Seq::<char>::empty(), Seq::<char>::empty()))
        <= u64::MAX
}

/// Parse GitLab CI duration strings like "1h 30m", "3600", "90s", "30 minutes":
/// seconds, or the error message.
pub open spec fn parse_duration_spec(input: Seq<char>) -> Result<int, Seq<char>> {
    let s = trim_spec(input);
    match u64_parse_spec(s) {
        Some(n) => Ok(n),
        None => match duration_scan(s, 0, Seq::<char>::empty(), Seq::<char>::empty()) {
            DurationScan::Done(t) => if t == 0 {
                Err("invalid duration: "@ + s)
            } else {
                Ok(t)
            },
            DurationScan::InvalidNumber(_) => Err("invalid duration: "@ + s),
            DurationScan::UnknownUnit(w, _) => Err("unknown duration unit: "@ + w),
        },
    }
}

proof fn lemma_close_unit_grows(total: int, buf: Seq<char>, word: Seq<char>)
    requires
        total >= 0,
        all_digits(buf),
    ensures
        scan_total(close_unit(total, buf, word)) >= total,
{
    if buf.len() > 0 {
        lemma_digits_value_nonneg(buf);
    }
}

proof fn lemma_scan_total_grows(s: Seq<char>, total: int, buf: Seq<char>, word: Seq<char>)
    requires
        total >= 0,
        all_digits(buf),
    ensures
        scan_total(duration_scan(s, total, buf, word)) >= total,
    decreases s.len(), word.len(),
{
    lemma_close_unit_grows(total, buf, word);
    if s.len() == 0 {
        if word.len() == 0 && buf.len() > 0 {
            lemma_digits_value_nonneg(buf);
        }
    } else {
        let c = s[0];
        if word.len() > 0 && !alphabetic(c) {
            if let DurationScan::Done(t) = close_unit(total, buf, word) {
                assert(all_digits(Seq::<char>::empty()));
                lemma_scan_total_grows(s, t, Seq::empty(), Seq::empty());
            }
        } else if is_ascii_digit(c) {
            assert(all_digits(buf.push(c))) by {
                assert forall|i: int| 0 <= i < buf.push(c).len() implies is_ascii_digit(
                    #[trigger] buf.push(c)[i],
                ) by {
                    if i < buf.len() {
                        assert(buf.push(c)[i] == buf[i]);
                    }
                }
            }
            lemma_scan_total_grows(s.drop_first(), total, buf.push(c), word);
        } else if alphabetic(c) {
            lemma_scan_total_grows(s.drop_first(), total, buf, word.push(c));
        } else {
            lemma_scan_total_grows(s.drop_first(), total, buf, word);
        }
    }
}

fn word_unit(w: &str) -> (r: u64)
    ensures
        r == word_seconds(w@),
{
    if str_eq(w, "h") || str_eq(w, "H") || str_eq(w, "hr") || str_eq(w, "hrs") || str_eq(w, "hour")
        || str_eq(w, "hours") {
        3600
    } else if str_eq(w, "m") || str_eq(w, "M") || str_eq(w, "min") || str_eq(w, "mins")
        || str_eq(w, "minute") || str_eq(w, "minutes") {
        60
    } else if str_eq(w, "s") || str_eq(w, "S") || str_eq(w, "sec") || str_eq(w, "secs")
        || str_eq(w, "second") || str_eq(w, "seconds") {
        1
    } else {
        0
    }
}

/// Closes the buffered number with its unit word: the new total, or `Err(None)` for a
/// missing or oversized number, or `Err(Some(word))` for a word that names no unit.
fn close_unit_exec(total: u64, buf: &Vec<char>, word: &Vec<char>) -> (r: Result<u64, Option<String>>)
    requires
        all_digits(buf@),
        scan_total(close_unit(total as int, buf@, word@)) <= u64::MAX,
    ensures
        match close_unit(total as int, buf@, word@) {
            DurationScan::Done(t) => r matches Ok(x) && x == t,
            DurationScan::InvalidNumber(_) => r == Err::<u64, Option<String>>(None),
            DurationScan::UnknownUnit(w, _) => r matches Err(Some(x)) && x@ == w,
        },
{
    if buf.len() == 0 {
        return Err(None);
    }
    assert(buf@.subrange(0, buf@.len() as int) =~= buf@);
    let n = match digits_to_u64(buf, 0, buf.len()) {
        Some(n) => n,
        None => {
            return Err(None);
        },
    };
    let w = string_of_chars(word);
    let unit = word_unit(w.as_str());
    if unit == 0 {
        return Err(Some(w));
    }
    proof {
        lemma_digits_value_nonneg(buf@);
        assert(0 <= n * unit <= u64::MAX) by (nonlinear_arith)
            requires
                total + n * unit <= u64::MAX,
                n >= 0,
                unit >= 1,
                total >= 0,
        ;
    }
    Ok(total + n * unit)
}

/// Closes the buffered number with its unit word, the total kept wide: `None` when
/// the scan stops there (a missing or oversized number, or a word that names no unit).
fn close_unit_wide(total: u128, buf: &Vec<char>, word: &Vec<char>) -> (r: Option<u128>)
    requires
        all_digits(buf@),
        total <= u64::MAX,
    ensures
        match close_unit(total as int, buf@, word@) {
            DurationScan::Done(t) => r matches Some(x) && x as int == t,
            _ => r is None,
        },
{
    proof {
        lemma_close_unit_grows(total as int, buf@, word@);
    }
    if buf.len() == 0 {
        return None;
    }
    assert(buf@.subrange(0, buf@.len() as int) =~= buf@);
    let n = match digits_to_u64(buf, 0, buf.len()) {
        Some(n) => n,
        None => {
            return None;
        },
    };
    let w = string_of_chars(word);
    let unit = word_unit(w.as_str());
    if unit == 0 {
        return None;
    }
    assert(n as int * unit as int <= u64::MAX as int * 3600) by (nonlinear_arith)
        requires
            n <= u64::MAX,
            unit <= 3600,
    ;
    let prod: u128 = n as u128 * unit as u128;
    Some(total + prod)
}

/// Whether `parse_duration` reads `input` without its running total passing
/// `u64::MAX`: the test a caller makes before calling it.
pub fn duration_fits(input: &str) -> (r: bool)
    ensures
        r == duration_in_range(input@),
{
    let s = trim(input);
    let v = chars_of(s.as_str());
    let mut total: u128 = 0;
    let mut buf: Vec<char> = Vec::new();
    let mut word: Vec<char> = Vec::new();
    let mut i: usize = 0;
    let ghost whole = s@;
    let ghost start = duration_scan(whole, 0, Seq::<char>::empty(), Seq::<char>::empty());
    proof {
        assert(whole.skip(0) =~= whole);
        assert(buf@ =~= Seq::<char>::empty());
        assert(word@ =~= Seq::<char>::empty());
    }
    while i < v.len()
        invariant
            v@ == s@,
            whole == s@,
            whole == trim_spec(input@),
            start == duration_scan(whole, 0, Seq::<char>::empty(), Seq::<char>::empty()),
            i <= v@.len(),
            all_digits(buf@),
            total <= u64::MAX,
            start == duration_scan(whole.skip(i as int), total as int, buf@, word@),
        decreases v@.len() - i,
    {
        let c = v[i];
        let ghost rest = whole.skip(i as int);
        assert(rest[0] == c);
        assert(rest.drop_first() =~= whole.skip(i + 1));
        let alpha = char_is_alphabetic(c);
        if word.len() > 0 && !alpha {
            match close_unit_wide(total, &buf, &word) {
                Some(t) => {
                    assert(start == duration_scan(rest, t as int, Seq::empty(), Seq::empty()));
                    if t > u64::MAX as u128 {
                        proof {
                            assert(all_digits(Seq::<char>::empty()));
                            lemma_scan_total_grows(rest, t as int, Seq::empty(), Seq::empty());
                        }
                        return false;
                    }
                    total = t;
                    buf = Vec::new();
                    word = Vec::new();
                    assert(buf@ =~= Seq::<char>::empty());
                    assert(word@ =~= Seq::<char>::empty());
                },
                None => {
                    proof {
                        lemma_close_unit_grows(total as int, buf@, word@);
                        assert(start == close_unit(total as int, buf@, word@));
                    }
                    return true;
                },
            }
        }
        if char_is_digit(c) {
            let ghost old_buf = buf@;
            buf.push(c);
            assert(all_digits(buf@)) by {
                assert forall|k: int| 0 <= k < buf@.len() implies is_ascii_digit(
                    #[trigger] buf@[k],
                ) by {
                    if k < old_buf.len() {
                        assert(buf@[k] == old_buf[k]);
                    }
                }
            }
        } else if alpha {
            word.push(c);
        }
        i = i + 1;
    }
    assert(whole.skip(i as int) =~= Seq::<char>::empty());
    if word.len() > 0 {
        assert(start == close_unit(total as int, buf@, word@));
        proof {
            lemma_close_unit_grows(total as int, buf@, word@);
        }
        match close_unit_wide(total, &buf, &word) {
            Some(t) => {
                return t <= u64::MAX as u128;
            },
            None => {
                return true;
            },
        }
    }
    if buf.len() > 0 {
        assert(buf@.subrange(0, buf@.len() as int) =~= buf@);
        match digits_to_u64(&buf, 0, buf.len()) {
            Some(n) => {
                return total + n as u128 <= u64::MAX as u128;
            },
            None => {
                return true;
            },
        }
    }
    true
}

/// Parse GitLab CI duration strings like "1h 30m", "3600", "30m", "30 minutes" into
/// seconds.
pub fn parse_duration(input: &str) -> (r: Result<u64, String>)
    requires
        duration_in_range(input@),
    ensures
        match parse_duration_spec(input@) {
            Ok(n) => r matches Ok(v) && v == n,
            Err(e) => r matches Err(m) && m@ == e,
        },
{
    let s = trim(input);
    if let Some(secs) = parse_u64(s.as_str()) {
        return Ok(secs);
    }
    let v = chars_of(s.as_str());
    let mut total: u64 = 0;
    let mut buf: Vec<char> = Vec::new();
    let mut word: Vec<char> = Vec::new();
    let mut i: usize = 0;
    let ghost whole = s@;
    let ghost start = duration_scan(whole, 0, Seq::<char>::empty(), Seq::<char>::empty());
    proof {
        assert(whole.skip(0) =~= whole);
        assert(buf@ =~= Seq::<char>::empty());
        assert(word@ =~= Seq::<char>::empty());
    }
    while i < v.len()
        invariant
            v@ == s@,
            whole == s@,
            whole == trim_spec(input@),
            u64_parse_spec(whole) is None,
            start == duration_scan(whole, 0, Seq::<char>::empty(), Seq::<char>::empty()),
            scan_total(start) <= u64::MAX,
            i <= v@.len(),
            all_digits(buf@),
            start == duration_scan(whole.skip(i as int), total as int, buf@, word@),
        decreases v@.len() - i,
    {
        let c = v[i];
        let ghost rest = whole.skip(i as int);
        assert(rest[0] == c);
        assert(rest.drop_first() =~= whole.skip(i + 1));
        let alpha = char_is_alphabetic(c);
        if word.len() > 0 && !alpha {
            proof {
                lemma_close_unit_grows(total as int, buf@, word@);
                if let DurationScan::Done(t) = close_unit(total as int, buf@, word@) {
                    assert(all_digits(Seq::<char>::empty()));
                    lemma_scan_total_grows(rest, t, Seq::empty(), Seq::empty());
                }
            }
            match close_unit_exec(total, &buf, &word) {
                Ok(t) => {
                    total = t;
                    buf = Vec::new();
                    word = Vec::new();
                    assert(buf@ =~= Seq::<char>::empty());
                    assert(word@ =~= Seq::<char>::empty());
                },
                Err(None) => {
                    return Err(concat("invalid duration: ", s.as_str()));
                },
                Err(Some(w)) => {
                    return Err(concat("unknown duration unit: ", w.as_str()));
                },
            }
        }
        if char_is_digit(c) {
            let ghost old_buf = buf@;
            buf.push(c);
            assert(all_digits(buf@)) by {
                assert forall|k: int| 0 <= k < buf@.len() implies is_ascii_digit(
                    #[trigger] buf@[k],
                ) by {
                    if k < old_buf.len() {
                        assert(buf@[k] == old_buf[k]);
                    }
                }
            }
        } else if alpha {
            word.push(c);
        }
        i = i + 1;
    }
    assert(whole.skip(i as int) =~= Seq::<char>::empty());
    if word.len() > 0 {
        assert(start == close_unit(total as int, buf@, word@));
        let closed = close_unit_exec(total, &buf, &word);
        match closed {
            Ok(t) => {
                if t == 0 {
                    return Err(concat("invalid duration: ", s.as_str()));
                }
                return Ok(t);
            },
            Err(None) => {
                return Err(concat("invalid duration: ", s.as_str()));
            },
            Err(Some(w)) => {
                return Err(concat("unknown duration unit: ", w.as_str()));
            },
        }
    }
    if buf.len() > 0 {
        assert(buf@.subrange(0, buf@.len() as int) =~= buf@);
        let n = match digits_to_u64(&buf, 0, buf.len()) {
            Some(n) => n,
            None => {
                return Err(concat("invalid duration: ", s.as_str()));
            },
        };
        total = total + n;
    }
    if total == 0 {
        return Err(concat("invalid duration: ", s.as_str()));
    }
    Ok(total)
}

} // verus!
