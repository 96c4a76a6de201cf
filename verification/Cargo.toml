[package]
name = "pg2parquet"
version = "0.1.0"
edition = "2021"
publish = false

[dependencies]
parquet = { version = "=56.2.1", default-features = false, features = ["snap", "flate2", "flate2-rust_backened", "brotli", "lz4"] }
postgres = "=0.19.14"
clap = { version = "=4.6.7", features = ["derive"] }
rpassword = "=7.5.4"
