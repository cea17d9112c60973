[package]
name = "nihongo_run"
version = "0.1.0"
edition = "2021"
publish = false

[dependencies]
rand = { version = "0.8", features = ["small_rng"] }
serde = { version = "1", features = ["derive"] }
fontdue = "*"
reqwest = { version = "*", default-features = false, features = ["json", "rustls-tls"] }
async-compat = "*"
web-sys = { version = "*", features = ["Window"] }
