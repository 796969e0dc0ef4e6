[package]
name = "login_ng_session"
version = "0.1.0"
edition = "2021"
publish = false

[dependencies]
libc = "0.2"
tokio = { version = "1", features = ["macros", "rt-multi-thread", "process", "sync", "time", "signal"] }
zbus = "5"
serde = { version = "1", features = ["derive"] }
serde_json = "1"
