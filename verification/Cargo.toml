[package]
name = "a_rust_vm"
version = "0.1.0"
edition = "2021"
publish = false

[dependencies]
calamine = "=0.38.0"
reqwest = { version = "=0.13.5", features = ["blocking", "json"] }
serde = { version = "=1.0.229", features = ["derive"] }
serde_json = { version = "=1.0.154", features = ["preserve_order"] }
sha2 = "=0.10.9"
zip = { version = "=8.6.0", default-features = false, features = ["deflate"] }
