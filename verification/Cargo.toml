[package]
name = "dbuf_storage"
version = "0.1.0"
edition = "2021"
publish = false

[dependencies]
sled = "0.34"
rand = "0.8"
jsonschema = { version = "0.17", default-features = false }
serde_json = "1"
serde = { version = "1", features = ["derive"] }
actix-web = "4"
clap = "4"
env_logger = "0.10"
schemars = "0.8"

[dev-dependencies]
tempfile = "3"
