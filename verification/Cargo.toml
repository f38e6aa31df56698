[package]
name = "target_gen"
version = "0.1.0"
edition = "2021"
publish = false

[dependencies]
zip = "*"
cmsis-pack = "*"
serde = { version = "*", features = ["derive"] }
serde_yaml = "*"
anyhow = "*"
log = "*"
reqwest = { version = "*", default-features = false, features = ["blocking", "rustls-tls"] }
