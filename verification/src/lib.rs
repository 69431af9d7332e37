pub mod browser;
pub mod cancel;
pub mod cli;
pub mod config;
pub mod engine_trait;
pub mod entry;
pub mod error;
pub mod file_url;
pub mod format;
pub mod jobs;
pub mod location;
pub mod ops;
pub mod parse_list;
pub mod parse_progress;
pub mod pending;
pub mod preview;
pub mod row;
pub mod runner;
pub mod text;
pub mod tree;
pub mod ui;
