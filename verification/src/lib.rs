//! Synchronisation engine for a pack of Modrinth mods: the install ledger,
//! the download cache and the reconciliation between the pack manifest and
//! the mods directory, with machine-checked contracts.

pub mod batch;
pub mod commands;
pub mod download;
pub mod download_cache;
pub mod install_cache;
pub mod mods_dir;
pub mod modrinth;
pub mod pack;
pub mod sync;
pub mod sync_proofs;
