[package]
name = "qtp_core"
version = "0.1.0"
edition = "2021"
publish = false

[dependencies]
arrow = { version = "*", default-features = false }
chrono = "0.4"
clap = { version = "4", features = ["derive"] }
hashbrown = "0.15"
parquet = { version = "*", default-features = false, features = ["arrow", "snap"] }
serde = { version = "1", features = ["derive"] }
serde_json = "1"
slotmap = "1"
smallvec = { version = "1", features = ["serde"] }
tempfile = "3"
thiserror = "2"
