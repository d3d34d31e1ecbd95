//! The one backend: a YouTrack instance.

pub mod admin;
pub mod bundles;
pub mod clone;
pub mod fetch;
pub mod init;
pub mod links;
pub mod mapping;
pub mod provision;
pub mod sharedness;
pub mod tags;
