//! Turning a pipeline's jobs into an execution plan.
pub mod dag;
