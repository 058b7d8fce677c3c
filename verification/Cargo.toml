[package]
name = "dict_admin"
version = "0.1.0"
edition = "2021"
publish = false

[dependencies]
scru128 = "*"
chrono = "0.4"
serde = { version = "1", features = ["derive"] }
serde_json = "1"
poem = "1.3"
sea-orm = { version = "0.11", default-features = false, features = ["macros", "with-chrono"] }
validator = { version = "*", features = ["derive"] }
tokio = { version = "1", features = ["rt-multi-thread", "macros", "sync"] }
