//! Keeps btrfs snapshot mounts on their newest clean snapshot.

pub mod config;
pub mod error;
pub mod latest;
pub mod laws;
pub mod message;
pub mod mounts;
pub mod outcomes;
pub mod pattern;
pub mod process;
pub mod remount;
pub mod series;
pub mod session;
pub mod subvol;
pub mod table;
pub mod text;
