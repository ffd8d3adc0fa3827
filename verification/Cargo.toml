[package]
name = "maestro-llamacpp"
version = "0.1.0"
edition = "2021"
publish = false

[dependencies]
toml = "*"
serde_json = "1"
ctrlc = "3"
