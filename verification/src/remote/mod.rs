//! Mirroring a workspace into an external tracker.
//!
//! What is decided here is decided from plain values: the requests that a
//! mirror run makes are values too, and whoever runs them hands the replies
//! back.

pub mod adopt;
pub mod comments;
pub mod config;
pub mod diff;
pub mod error;
pub mod execute;
pub mod http;
pub mod link_diff;
pub mod model;
pub mod plan;
pub mod planned;
pub mod reconcile;
pub mod rendering;
pub mod shown;
pub mod talk;
pub mod tombstone;
pub mod youtrack;
