//! The pipeline data model: jobs, variables, rules and the pipeline itself.
pub mod job;
pub mod pipeline;
pub mod predefined;
pub mod rules;
pub mod variables;
