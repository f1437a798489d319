//! What holds of the library as a whole, stated over what its functions take and give.

pub mod cli;
pub mod clipboard;
pub mod config;
pub mod files;
pub mod history;
pub mod mesh;
pub mod offers;
pub mod paste;
pub mod rules;
pub mod ruleset;
pub mod template;
pub mod text;
