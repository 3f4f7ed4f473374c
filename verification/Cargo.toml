[package]
name = "vinyl"
version = "0.1.0"
edition = "2021"
publish = false

[dependencies]
axum = { version = "0.6", features = ["macros"] }
colored = "2"
hyper = { version = "0.14", features = ["stream"] }
log = "0.4"
serde = { version = "1", features = ["derive"] }
thiserror = "1"
tokio = { version = "1", features = ["rt-multi-thread", "macros"] }
youtube_dl = "0.8"
