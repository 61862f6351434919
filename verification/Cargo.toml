[package]
name = "real_ip"
version = "0.1.0"
edition = "2021"
publish = false

[dependencies]
http = "1"
axum = { version = "0.7", default-features = false, features = ["tokio"] }
tower = { version = "0.5", default-features = false }
async-trait = "0.1"
