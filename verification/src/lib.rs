//! Acquires versioned helper binaries on demand, plans the extraction of
//! named partitions out of a remote OTA archive, and recovers the kernel
//! metadata that drives an external boot-image patcher.
//!
//! Everything that decides — platform resolution, asset selection, dump
//! planning and ordering, the kernel byte scan, patch command
//! construction — lives here under contracts.  Network transfers, file
//! writes and subprocesses stay with the caller.

pub mod commands;
pub mod config;
pub mod kmi;
pub mod patch_boot;
pub mod payload;
pub mod tool;
pub mod utils;
