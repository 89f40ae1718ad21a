//! Core of a self-hosted photo gallery: directory indexing with content-hash
//! deduplication, metadata extraction, an in-memory record store with
//! insert-or-ignore / upsert-by-hash semantics, a background-task state
//! machine with cooperative cancellation, and a thumbnail pipeline with a
//! bounded time-expiring cache.

pub mod api;
pub mod cache;
pub mod config;
pub mod error;
pub mod hashing;
pub mod images;
pub mod like;
pub mod logging;
pub mod order;
pub mod paths;
pub mod records;
pub mod scan;
pub mod strutil;
pub mod tags;
pub mod tasks;
pub mod thumbs;
