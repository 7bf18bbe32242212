//! YAML documents and their interpretation as pipelines.
pub mod document;
pub mod includes;
pub mod schema;
pub mod yaml;
