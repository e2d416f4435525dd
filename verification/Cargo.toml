[package]
name = "binlink"
version = "0.1.0"
edition = "2021"
publish = false

[dependencies]
which = "*"
clap = "*"
dirs = "*"
libc = "*"
serde = { version = "*", features = ["derive"] }
toml = "*"
toml_edit = "*"
log = "*"
env_logger = "*"
