[package]
name = "oa_shell"
version = "0.1.0"
edition = "2021"
publish = false

[dependencies]
sha1 = "=0.10.7"
serde = { version = "=1.0.229", features = ["derive"] }
serde_json = "=1.0.154"
strsim = "=0.11.1"
serde_yaml = "=0.9.34"
toml = "=0.8.23"
image = { version = "=0.25.10", default-features = false, features = ["png", "jpeg", "webp"] }
time = { version = "=0.3.55", features = ["formatting"] }
urlencoding = "2"
