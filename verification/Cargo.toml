[package]
name = "fs_debounce"
version = "0.1.0"
edition = "2021"
publish = false

[dependencies]
anyhow = "1"
chrono = "0.4"
clap = { version = "4", features = ["derive"] }
clap-verbosity-flag = "2"
colored = "2"
env_logger = "0.10"
file-id = "0.2"
log = "0.4"
notify = "6"
rbx_dom_weak = "*"
reqwest = { version = "0.11", default-features = false, features = ["blocking", "json"] }
serde = { version = "1", features = ["derive"] }
serde_json = "1"
tokio = { version = "1", features = ["sync", "rt-multi-thread", "macros"] }
walkdir = "2"
warp = { version = "0.3", default-features = false }
