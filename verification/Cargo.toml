[package]
name = "bloksel"
version = "0.1.0"
edition = "2021"
publish = false

[dependencies]
sha2 = "=0.10.9"
serde = { version = "=1.0.229", features = ["derive"] }
serde_json = "=1.0.154"
toml = "=0.8.23"
directories = "=5.0.1"
noise = "=0.9.0"
rand = "=0.8.8"
rand_chacha = "=0.3.1"
glam = "=0.24.2"
image = { version = "0.24", default-features = false, features = ["png"] }
