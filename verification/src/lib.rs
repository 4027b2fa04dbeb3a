//! Verified core of the HowlingWind netplay launcher.

pub mod wire;
pub mod checksum;
pub mod netplay;
pub mod dolphin_mem;
pub mod rollback;
pub mod text;
pub mod updater;
pub mod hw_ipc;
pub mod rollback_ipc;
pub mod stun;
pub mod launcher;
pub mod gcpad;
pub mod sorting;
pub mod mem_report;
pub mod diagnostics;
