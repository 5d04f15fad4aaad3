[package]
name = "gemote"
version = "0.1.0"
edition = "2021"
publish = false

[dependencies]
git2 = { version = "*", default-features = false }
serde = { version = "*", features = ["derive"] }
toml = "*"
clap = { version = "*", features = ["derive"] }
clap_complete = "*"
colored = "*"
anyhow = "*"
path-slash = "*"

[dev-dependencies]
tempfile = "*"
