[package]
name = "toml_export"
version = "0.1.0"
edition = "2021"
publish = false

[dependencies]
snailquote = "=0.3.1"
toml = { version = "=1.1.6", features = ["preserve_order"] }
thiserror = "=2.0.21"
