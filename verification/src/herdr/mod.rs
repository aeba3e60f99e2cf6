//! The herdr host's pane API, as values.
pub mod api;
pub mod client;
