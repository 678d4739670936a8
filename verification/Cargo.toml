[package]
name = "nippy_jar"
version = "0.1.0"
edition = "2021"
publish = false

[dependencies]
sucds = "*"
zstd = "*"
bincode = "1"
serde = { version = "1", features = ["derive"] }
memmap2 = "*"

[dev-dependencies]
rand = { version = "0.8", features = ["small_rng"] }
