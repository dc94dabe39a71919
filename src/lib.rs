//! An indexer for asset libraries kept in project directories: classification
//! and metadata extraction, an in-memory index with queries, dependency
//! resolution, thumbnail decisions and the phases of a scan.

pub mod text;
pub mod model;
pub mod store;
pub mod query;
pub mod resolver;
pub mod scan_text;
pub mod extract;
pub mod mesh;
pub mod preview;
pub mod scanner;
pub mod orchestrator;
pub mod settings;
pub mod laws;
pub mod library;
