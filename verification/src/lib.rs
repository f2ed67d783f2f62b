//! Core of a media gallery backend: extension policy, upload ingestion,
//! and deterministic listing, with verified contracts.

pub mod filename;
pub mod ingest;
pub mod listing;
pub mod models;
pub mod naming;
pub mod order;
pub mod policy;
pub mod text;
