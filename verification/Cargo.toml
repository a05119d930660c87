[package]
name = "power_curve"
version = "0.1.0"
edition = "2021"
publish = false

[dependencies]
rayon = "*"
axum = { version = "*", features = ["multipart"] }
bson = "*"
chrono = "*"
dotenv = "*"
fitparser = "*"
mongodb = "*"
serde = { version = "*", features = ["derive"] }
tokio = { version = "*", features = ["full"] }
tower-http = { version = "*", features = ["cors"] }
