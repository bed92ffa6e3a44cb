[package]
name = "bevy_ggrs"
version = "0.1.0"
edition = "2021"
publish = false

[dependencies]
bevy = { version = "=0.17.3", default-features = false, features = ["std", "async_executor", "bevy_log"] }
ggrs = { version = "=0.11.1", features = ["sync-send"] }
proc-macro2 = "=1.0.107"
quote = "=1.0.47"
seahash = "=4.1.0"
syn = "=2.0.119"
