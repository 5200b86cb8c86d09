//! protonctx: the verified core of a launcher that runs executables inside a
//! Steam game's Proton prefix.

pub mod text;
pub mod paths;
pub mod order;
pub mod vdf;
pub mod models;
pub mod steam;
pub mod launcher;
pub mod flatpak;
pub mod config;
pub mod app_backend;
