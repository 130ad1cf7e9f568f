[package]
name = "territory_forecast"
version = "0.1.0"
edition = "2021"
publish = false

[dependencies]
argmin = "=0.11.0"
argmin-math = { version = "=0.5.1", features = ["vec"] }
chrono = "=0.4.45"
csv = "=1.4.0"
serde = { version = "=1.0.229", features = ["derive"] }
