[package]
name = "glwe_compaction"
version = "0.1.0"
edition = "2021"
publish = false

[dependencies]
concrete-csprng = { version = "=0.4.1", default-features = false, features = ["generator_fallback"] }
serde = { version = "1", features = ["derive"] }
