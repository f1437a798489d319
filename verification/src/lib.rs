//! Clipboard sharing between the machines of one person.

pub mod backoff;
pub mod cli;
pub mod client;
pub mod clipboard;
pub mod config;
pub mod config_reading;
pub mod config_template;
pub mod digest;
pub mod fsutil;
pub mod fswatch;
pub mod glob;
pub mod history;
pub mod laws;
pub mod mesh;
pub mod mime;
pub mod node;
pub mod node_id;
pub mod offer;
pub mod order;
pub mod paste;
pub mod peer;
pub mod protocol;
pub mod text;
pub mod toml;
