[package]
name = "many_core"
version = "0.1.0"
edition = "2021"
publish = false

[dependencies]
coset = "*"
serde_json = "*"
base64 = "*"
serde = { version = "*", features = ["derive"] }
hex = "*"
clap = { version = "*", features = ["derive"] }
tiny_http = "*"

[dev-dependencies]
num-bigint = "*"
