[package]
name = "p2psocial"
version = "0.1.0"
edition = "2021"
publish = false

[dependencies]
iroh-base = "0.33"
hex = "=0.4.3"
serde = { version = "1", features = ["derive"] }
serde_json = "1"
tokio = { version = "1", features = ["full"] }
clap = { version = "4", features = ["derive"] }
anyhow = "1"
log = "0.4"
tracing-subscriber = "0.3"
