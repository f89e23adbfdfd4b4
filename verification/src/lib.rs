//! Verified core of a Minecraft mod updater: mod identification, update
//! detection, client/server comparison and the plans that bring a server in
//! line with a client.

pub mod app;
pub mod curseforge;
pub mod hashing;
pub mod local_mods;
pub mod lookup;
pub mod models;
pub mod plan;
pub mod modrinth;
pub mod state;
pub mod sync;
pub mod text;
pub mod transfer;
pub mod updater;
