//! Shrank: the document-archive logic of a local-first paper mail cabinet.

mod text;
pub mod json;
pub mod errors;
pub mod config;
pub mod storage;
pub mod documents;
pub mod schema;
pub mod upload;
pub mod prompt;
pub mod inference;
pub mod extraction;
pub mod processing;
pub mod relationships;
pub mod search;
pub mod facets;
pub mod graph;
pub mod sync;
pub mod auth;
pub mod stats;
