//! A read-only git hunk viewer: the diff model, navigation, and the terminal view model.
pub mod actions;
pub mod bytes;
pub mod engine;
pub mod filesystem;
pub mod git;
pub mod herdr;
pub mod paths;
pub mod strs;
pub mod text;
pub mod tui;
