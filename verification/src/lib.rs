//! Decisions of a multi-source downloader for model and dataset repositories.

pub mod cache;
pub mod cli;
pub mod config;
pub mod download;
pub mod encoding;
pub mod error;
pub mod mapping;
pub mod names;
pub mod number;
pub mod paths;
pub mod reach;
pub mod routing;
pub mod source;
pub mod status;
pub mod text;
