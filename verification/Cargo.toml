[package]
name = "clipmesh"
version = "0.1.0"
edition = "2021"
publish = false

[dependencies]
anyhow = "1"
async-trait = "0.1"
bincode = "1"
blake3 = { version = "1", default-features = false, features = ["std", "pure"] }
futures-util = "0.3"
indexmap = { version = "2", features = ["serde"] }
inotify = "0.11"
rand = "0.8"
serde = { version = "1", features = ["derive", "rc"] }
shellexpand = "3"
tokio = { version = "1", features = ["rt-multi-thread", "macros", "net", "io-util", "sync", "time", "signal", "fs"] }
toml = "0.8"
toml_edit = "0.22"
tracing = "0.1"
tracing-subscriber = { version = "0.3", features = ["env-filter"] }
uuid = { version = "1", features = ["v4", "serde"] }
wayland-client = "0.31"
wayland-protocols = { version = "0.32", features = ["client", "staging"] }
wayland-protocols-wlr = { version = "0.3", features = ["client"] }
wl-clipboard-rs = "0.9"
zbus = { version = "5", default-features = false, features = ["tokio"] }
