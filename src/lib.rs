//! Mod state reconciliation and installation engine for a single-player game's
//! mod manager: manifest catalog, local state merging, dependency-ordered
//! installs, profile reconciliation and download progress tracking.

pub mod api;
pub mod args;
pub mod download;
pub mod game;
pub mod install;
pub mod manifest;
pub mod profiles;
pub mod progress;
pub mod queries;
pub mod state;
pub mod text;
