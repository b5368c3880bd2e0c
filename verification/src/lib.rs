//! Verified core of a desktop file manager: a metadata store for directory
//! and file records (hierarchy, path uniqueness, cascading deletion), a
//! content store for binary payloads (unique-name generation, chunked
//! ingestion with progress reporting, MIME detection), and the orchestration
//! service that combines both into transactional-feeling operations.

pub mod advanced_logging;
pub mod commands;
pub mod config;
pub mod config_loader;
pub mod database;
pub mod error;
pub mod filesystem;
pub mod foreign;
pub mod laws;
pub mod logging;
pub mod service;
pub mod text;
