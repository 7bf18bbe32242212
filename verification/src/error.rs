//! The library's error type.
use vstd::prelude::*;

use crate::text::{concat, concat3, i64_to_string, owned, signed_decimal};

verus! {

/// Core error type for lab operations. Outside errors are held by their messages.
#[derive(Debug, Clone)]
pub enum LabError {
    YamlParse(String),
    FileRead { path: String, message: String },
    InvalidConfig(String),
    JobNotFound(String),
    StageNotFound(String),
    CircularDependency(String),
    UnknownDependency { job: String, dependency: String },
    Docker(String),
    ContainerFailed { code: i64 },
    VariableExpansion(String),
    RuleEvaluation(String),
    Other(String),
}

/// `format!("{:?}", s)`: the string quoted and escaped as `Debug` writes it.
pub uninterp spec fn debug_quoted(s: Seq<char>) -> Seq<char>;

/// `<str as Debug>::fmt`, through `format!("{:?}", s)`. Its result is only named.
#[verifier::external_body]
pub fn debug_str(s: &str) -> (r: String)
    ensures
        r@ == debug_quoted(s@),
{
    format!("{:?}", s)
}

/// The text each error displays.
pub open spec fn error_message(e: LabError) -> Seq<char> {
    match e {
        LabError::YamlParse(m) => "failed to parse YAML: "@ + m@,
        LabError::FileRead { path, message } => "failed to read "@ + path@ + ": "@ + message@,
        LabError::InvalidConfig(m) => "invalid pipeline configuration: "@ + m@,
        LabError::JobNotFound(j) => "job "@ + debug_quoted(j@) + " not found"@,
        LabError::StageNotFound(s) => "stage "@ + debug_quoted(s@) + " not found"@,
        LabError::CircularDependency(j) => "circular dependency detected involving job "@
            + debug_quoted(j@),
        LabError::UnknownDependency { job, dependency } => "job "@ + debug_quoted(job@)
            + " references unknown dependency "@ + debug_quoted(dependency@),
        LabError::Docker(m) => "docker error: "@ + m@,
        LabError::ContainerFailed { code } => "container exited with code "@ + signed_decimal(
            code as int,
        ),
        LabError::VariableExpansion(m) => "variable expansion error: "@ + m@,
        LabError::RuleEvaluation(m) => "rule evaluation error: "@ + m@,
        LabError::Other(m) => m@,
    }
}

impl LabError {
    /// The message this error displays.
    pub fn message(&self) -> (r: String)
        ensures
            r@ == error_message(*self),
    {
        match self {
            LabError::YamlParse(m) => concat("failed to parse YAML: ", m.as_str()),
            LabError::FileRead { path, message } => {
                let a = concat3("failed to read ", path.as_str(), ": ");
                concat(a.as_str(), message.as_str())
            },
            LabError::InvalidConfig(m) => concat("invalid pipeline configuration: ", m.as_str()),
            LabError::JobNotFound(j) => {
                let q = debug_str(j.as_str());
                concat3("job ", q.as_str(), " not found")
            },
            LabError::StageNotFound(s) => {
                let q = debug_str(s.as_str());
                concat3("stage ", q.as_str(), " not found")
            },
            LabError::CircularDependency(j) => {
                let q = debug_str(j.as_str());
                concat("circular dependency detected involving job ", q.as_str())
            },
            LabError::UnknownDependency { job, dependency } => {
                let a = debug_str(job.as_str());
                let b = debug_str(dependency.as_str());
                let x = concat3("job ", a.as_str(), " references unknown dependency ");
                concat(x.as_str(), b.as_str())
            },
            LabError::Docker(m) => concat("docker error: ", m.as_str()),
            LabError::ContainerFailed { code } => {
                let c = i64_to_string(*code);
                concat("container exited with code ", c.as_str())
            },
            LabError::VariableExpansion(m) => concat("variable expansion error: ", m.as_str()),
            LabError::RuleEvaluation(m) => concat("rule evaluation error: ", m.as_str()),
            LabError::Other(m) => owned(m.as_str()),
        }
    }
}

} // verus!
