[package]
name = "oxc_passes"
version = "0.1.0"
edition = "2021"
publish = false

[dependencies]
base64 = "0.22"
natord = "1"
rustc-hash = "2"
schemars = "1"
serde = { version = "1", features = ["derive"] }
serde_json = "1"
sha1 = "0.10"
