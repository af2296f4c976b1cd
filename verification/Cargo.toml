[package]
name = "echocard"
version = "0.1.0"
edition = "2021"
publish = false

[dependencies]
bytemuck = "*"
chrono = "=0.4.45"
fsrs = "=6.6.2"
serde = { version = "=1.0.229", features = ["derive"] }
serde_json = "=1.0.151"
