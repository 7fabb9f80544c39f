[package]
name = "index_gate"
version = "0.1.0"
edition = "2021"
publish = false

[dependencies]
kuchiki = "0.8"
hyper = { version = "0.14", features = ["full"] }
hyper-tls = "0.5"
log = "0.4"
serde = { version = "1", features = ["derive"] }
serde_json = "1"
tokio = { version = "1", features = ["macros", "rt-multi-thread"] }
warp = "0.3"
