//! Local GitLab CI pipeline engine: model, parsing, planning and analysis.
pub mod analyze;
pub mod advice;
pub mod artifacts;
pub mod cache;
pub mod cli;
pub mod collections;
pub mod config;
pub mod docker;
pub mod error;
pub mod graph;
pub mod laws;
pub mod model;
pub mod parser;
pub mod paths;
pub mod planner;
pub mod report;
pub mod runner;
pub mod secrets;
pub mod text;
