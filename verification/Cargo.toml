[package]
name = "jackfield"
version = "0.1.0"
edition = "2021"
publish = false

[dependencies]
serde = { version = "1", features = ["derive"] }
serde_json = "1"
thiserror = "*"
tokio = { version = "1", features = ["sync", "rt", "rt-multi-thread", "macros", "time"] }
reqwest = { version = "*", default-features = false }
mdns-sd = "*"
tracing = "0.1"
