[package]
name = "beautytips"
version = "0.1.0"
edition = "2021"
publish = false

[dependencies]
glob = "*"
shell-words = "*"
anyhow = "*"
clap = { version = "*", features = ["derive", "env"] }
tokio = { version = "*", features = ["rt-multi-thread", "process", "sync", "fs", "macros", "time", "io-util"] }
toml = "*"
serde = { version = "*", features = ["derive"] }
dirs = "*"
cargo_toml = "*"
ignore = "*"
crossterm = "*"
