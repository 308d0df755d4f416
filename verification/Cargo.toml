[package]
name = "kcl_language_server"
version = "0.1.0"
edition = "2021"
publish = false

[dependencies]
anyhow = "1.0"
crossbeam-channel = "0.5.7"
indexmap = "1.9"
lsp-server = "0.6.0"
lsp-types = "0.93.0"
parking_lot = "0.12.0"
ra_ap_vfs = "0.0.149"
ra_ap_vfs-notify = "0.0.149"
serde = { version = "1.0", features = ["derive"] }
serde_json = "1.0"
threadpool = "1.8.1"
