[package]
name = "marquito"
version = "0.1.0"
edition = "2021"
publish = false

[dependencies]
bytes = "1"
clap = { version = "3", features = ["derive", "env"] }
futures = "0.3"
http = "0.2"
memchr = "2"
mime = "0.3"
once_cell = "1"
reqwest = { version = "0.11", default-features = false }
thiserror = "1"
tokio = { version = "1", features = ["full"] }
tracing = "0.1"
tracing-subscriber = "0.3"
