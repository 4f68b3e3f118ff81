[package]
name = "vxsky"
version = "0.1.0"
edition = "2021"
publish = false

[dependencies]
image = { version = "=0.24.9", default-features = false, features = ["png", "jpeg"] }
rayon = "=1.12.0"
thiserror = "1"
anyhow = "1"
log = "0.4"
serde = { version = "1", features = ["derive"] }
futures = "0.3"
tokio = { version = "1", features = ["full"] }
axum = "0.7"
axum_thiserror = "0.1"
async-trait = "0.1"
askama = { version = "0.12", features = ["with-axum"] }
askama_axum = "0.4"
dotenv = "0.15"
env_logger = "0.10"
reqwest = "0.11"
atrium-api = "=0.25.8"
atrium-xrpc = "=0.12.4"
atrium-xrpc-client = "=0.5.15"
