pub mod api;
pub mod changes;
pub mod config;
pub mod db;
pub mod error;
pub mod idempotence;
pub mod laws;
pub mod merge;
pub mod models;
pub mod sync;
pub mod table;
pub mod text;
pub mod timestamp;
pub mod token;
