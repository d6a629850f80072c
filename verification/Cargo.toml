[package]
name = "gex"
version = "0.1.0"
edition = "2021"
publish = false

[dependencies]
arrow-array = "*"
arrow-schema = "*"
axum = "*"
chrono = "0.4"
chrono-tz = "*"
clap = { version = "4", features = ["derive"] }
ctrlc = "3"
ibapi = { version = "*", default-features = false, features = ["sync"] }
libm = "0.2"
parquet = { version = "*", default-features = false, features = ["arrow", "snap"] }
serde = { version = "1", features = ["derive"] }
serde_json = "1"
tokio = { version = "1", features = ["macros", "net", "rt-multi-thread"] }
