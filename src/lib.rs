//! A personal feed reader: feed ingestion with deduplication, per-user
//! read state, composite item views, request routing and credential checks.

pub mod auth;
pub mod models;
pub mod router;
pub mod store;
pub mod web;
