//! Running jobs: the decisions the runner takes and the text it hands to containers.
pub mod executor;
pub mod job_plan;
pub mod output;
pub mod script;
