[package]
name = "compiledb"
version = "0.1.0"
edition = "2021"
publish = false

[dependencies]
regex = "*"
which = "*"
serde = { version = "*", features = ["derive"] }
serde_json = "*"
thiserror = "*"
anyhow = "*"
clap = { version = "*", features = ["derive"] }
env_logger = "*"
log = "*"
