//! Versioned, content-addressed datasets recorded as hash-linked chains of
//! metadata blocks, with chain storage, remote synchronization, dependency
//! ordering and refresh orchestration.

pub mod hash;
pub mod defaults;
pub mod metadata;
pub mod encoding;
pub mod chain;
pub mod chain_store;
pub mod sync;
pub mod dependency;
pub mod summary;
pub mod ingest;
pub mod transform;
pub mod pull;
pub mod watermark;
pub mod text;
pub mod engine;
pub mod resource;
pub mod repository;
pub mod sql_server;
