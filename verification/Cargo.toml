[package]
name = "wsm"
version = "0.1.0"
edition = "2021"
publish = false

[dependencies]
clap = { version = "4", features = ["derive"] }
dirs = "5"
serde = { version = "1", features = ["derive"] }
serde_json = "1"
serde_yaml = "0.9"
windows = { version = "0.58", features = ["Win32_Foundation", "Win32_Graphics_Gdi"] }
