[package]
name = "factor-analysis"
version = "0.1.0"
edition = "2021"
publish = false

[dependencies]
blake3 = "1"
encoding_rs = "0.8"
time = { version = "0.3", features = ["macros", "parsing", "formatting", "serde"] }
validator = { version = "*", features = ["derive"] }
serde = { version = "1", features = ["derive"] }
serde_json = { version = "1", features = ["raw_value"] }
toml = "*"
clap = { version = "4", features = ["derive"] }
tempfile = "3"
tokio = { version = "1", features = ["full"] }
rayon = "1"
rustc-hash = "2"
mimalloc = "*"
derive_more = { version = "*", features = ["deref", "deref_mut"] }
rusqlite = "*"
salvo = { version = "*", features = ["cors", "oapi"] }
salvo-oapi = "*"
