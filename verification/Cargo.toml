[package]
name = "q_proc"
version = "0.1.0"
edition = "2021"
publish = false

[dependencies]
bevy = { version = "0.17", default-features = false, features = ["std"] }
thiserror = "2"
tiny_bail = "0.4"
