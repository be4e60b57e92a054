[package]
name = "actix-gcd"
version = "0.1.0"
edition = "2021"
publish = false

[dependencies]
actix-web = { version = "=1.0.9", default-features = false }
chrono = "=0.4.19"
