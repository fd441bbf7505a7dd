[package]
name = "git_kit"
version = "0.1.0"
edition = "2021"
publish = false

[dependencies]
quick-error = "=2.0.1"
serde = { version = "1", features = ["derive"] }
