//! Verified core of a business-process analysis service.
pub mod text;
pub mod json;
pub mod kv;
pub mod individual;
pub mod mapping;
pub mod common;
pub mod types;
pub mod ai_result;
pub mod onto;
pub mod schema;
pub mod fresh;
pub mod response;
pub mod request;
pub mod pipeline;
pub mod processing;
pub mod clustering;
pub mod extractors;
pub mod handlers;
pub mod queue;
pub mod schema_facts;
pub mod conversion_facts;
