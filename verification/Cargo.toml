[package]
name = "codex_switch"
version = "0.1.0"
edition = "2021"
publish = false

[dependencies]
anyhow = "1"
chrono = "*"
clap = { version = "4", features = ["derive"] }
dirs = "*"
libc = "*"
rpassword = "*"
rusqlite = "*"
serde = { version = "1", features = ["derive"] }
serde_json = "1"
sha2 = "*"
sysinfo = "*"
toml = "*"
