[package]
name = "beeline"
version = "0.1.0"
edition = "2021"
publish = false

[dependencies]
hpack = "*"
httlib-huffman = "*"
http = "*"
axum = "*"
tokio = { version = "*", features = ["macros", "rt-multi-thread", "net"] }
tower-http = { version = "*", features = ["fs", "trace", "set-status"] }
tracing = "*"
tracing-subscriber = { version = "*", features = ["env-filter"] }
clap = { version = "*", features = ["derive"] }
