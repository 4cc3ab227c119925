[package]
name = "acil"
version = "0.1.0"
edition = "2021"
publish = false

[dependencies]
pulldown-cmark = { version = "0.13", default-features = false }
htmd = "*"
serde_json = "1"
nu-ansi-term = "*"
figleter = "*"
serde = { version = "1", features = ["derive"] }
serde_yaml = "*"
clap = { version = "4", features = ["derive"] }
dirs = "*"
reedline = "*"
reqwest = { version = "0.12", default-features = false, features = ["json", "rustls-tls"] }
rpassword = "*"
self-replace = "*"
self_update = { version = "0.41", default-features = false, features = ["rustls", "archive-tar", "compression-flate2"] }
tokio = { version = "1", features = ["rt-multi-thread", "macros"] }
tracing-subscriber = "*"
thiserror = "*"
