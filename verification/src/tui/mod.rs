pub mod config;
pub mod dialog;
pub mod format;
pub mod guard;
pub mod input;
pub mod keys;
pub mod layout;
pub mod picker;
pub mod rows;
pub mod sanitize;
pub mod shell;
pub mod state;
pub mod style;
pub mod view;
