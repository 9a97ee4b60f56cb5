[package]
name = "coding-agent"
version = "0.1.0"
edition = "2021"
publish = false

[dependencies]
bumpalo = "3"
clap = { version = "4", features = ["derive"] }
crossterm = "0.28"
mlua = { version = "0.10", features = ["lua54", "vendored", "serialize"] }
ratatui = "0.29"
serde = { version = "1", features = ["derive"] }
serde_json = "1"
ureq = { version = "2", features = ["json"] }
