[package]
name = "sekai"
version = "0.1.0"
edition = "2021"
publish = false

[dependencies]
anyhow = "=1.0.104"
blake3 = { version = "=1.8.7", features = ["pure"] }
chrono = { version = "=0.4.45", default-features = false, features = ["alloc"] }
crc32fast = "=1.5.4"
lz4_flex = "=0.11.6"
miniz_oxide = "=0.8.9"
twox-hash = "=2.1.5"
clap = { version = "=4.6.7", features = ["derive"] }
serde = { version = "=1.0.229", features = ["derive"] }
serde_json = "=1.0.154"
indicatif = "=0.17.11"
tokio = { version = "1", features = ["macros", "rt-multi-thread"] }
