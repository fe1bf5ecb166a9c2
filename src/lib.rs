//! Document-to-knowledge-graph ingestion: chunking, canonical entity ids,
//! repair of model-emitted JSON, and the two-stage graph construction.

pub mod text;
pub mod chunker;
pub mod canonical;
pub mod search;
pub mod repair;
pub mod models;
pub mod graph;
pub mod stage2;
pub mod ingest;
pub mod query;
pub mod documents;
pub mod report;
pub mod request;
pub mod chatlog;
pub mod corpus;
pub mod orchestrator;
pub mod keys;
