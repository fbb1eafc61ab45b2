[package]
name = "zoners"
version = "0.1.0"
edition = "2021"
publish = false

[dependencies]
jiff = { version = "0.2", features = ["tzdb-bundle-always"] }
anstream = "*"
anstyle = "1"
clap = { version = "4", features = ["derive"] }
askama = "*"
axum = "0.8"
serde = { version = "1", features = ["derive"] }
tokio = { version = "1", features = ["rt", "net", "signal", "macros"] }
