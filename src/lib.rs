//! Query orchestration, result caching and time-series processing for a
//! tag-history visualisation backend.

pub mod pool;
pub mod text;
pub mod order;
pub mod models;
pub mod fingerprint;
pub mod cache;
pub mod recency;
pub mod time;
pub mod processing;
pub mod config;
pub mod error;
pub mod datasource;
pub mod tag_group;
pub mod warmup;
pub mod query;
