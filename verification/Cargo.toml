[package]
name = "rift"
version = "0.1.0"
edition = "2021"
publish = false

[dependencies]
regex = "1"
slotmap = "1"
serde = { version = "1", features = ["derive"] }
serde_with = "3"
thiserror = "2"
tokio = { version = "1", features = ["sync"] }
tracing = "0.1"
ascii_tree = "0.1"
nix = "*"
objc2-core-foundation = "0.3"
serde_json = "1"
