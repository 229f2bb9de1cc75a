[package]
name = "hurry_cargo"
version = "0.1.0"
edition = "2021"
publish = false

[dependencies]
cargo_metadata = "*"
color-eyre = "*"
futures = "*"
rustc-stable-hash = "*"
serde = { version = "1", features = ["derive"] }
serde_json = "1"
tracing = "*"
