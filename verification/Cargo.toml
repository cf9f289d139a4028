[package]
name = "cargo_workspaces"
version = "0.1.0"
edition = "2021"
publish = false

[dependencies]
cargo_metadata = "*"
console = "*"
semver = "*"
serde = { version = "*", features = ["derive"] }
serde_json = "*"
