[package]
name = "sqlx_aip"
version = "0.1.0"
edition = "2021"
publish = false

[dependencies]
cel = "=0.15.0"
chrono = { version = "=0.4.45", default-features = false, features = ["std"] }
time = { version = "=0.3.55", default-features = false, features = ["std"] }
