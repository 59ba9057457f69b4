[package]
name = "craft"
version = "0.1.0"
edition = "2021"
publish = false

[dependencies]
serde = { version = "1", features = ["derive"] }
serde_json = "1"
sha2 = "0.10"
hex = "0.4"
toml = "0.8"
thiserror = "1"
schemars = "0.8"
inventory = "0.3"
bitflags = "2"
notify = "6"
mlua = { version = "0.9", features = ["lua54", "vendored"] }
