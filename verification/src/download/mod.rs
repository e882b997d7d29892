//! Plans and decisions of downloads.

pub mod checksum;
pub mod chunks;
pub mod content_range;
pub mod display;
pub mod filter;
pub mod glob;
pub mod plan;
pub mod preflight;
pub mod progress;
pub mod range;
pub mod retry;
pub mod session;
pub mod steps;
pub mod stream;
pub mod verify;
