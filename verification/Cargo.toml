[package]
name = "bevy_parquet"
version = "0.1.0"
edition = "2021"
publish = false

[dependencies]
arrow = { version = "=60.0.0", default-features = false }
bevy = { version = "=0.14.2", default-features = false }
parquet = { version = "=60.0.0", default-features = false, features = ["arrow", "snap"] }
thiserror = "=1.0.69"
tracing = "=0.1.44"

[dev-dependencies]
bytes = "=1.12.1"
