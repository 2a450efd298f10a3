[package]
name = "libxcsv"
version = "0.1.0"
edition = "2021"
publish = false

[dependencies]
anyhow = "1"
chrono = { version = "0.4", default-features = false, features = ["std"] }
clap = { version = "4", features = ["derive"] }
csv = "1"
quick-xml = "=0.31.0"
zip = { version = "0.6", default-features = false, features = ["deflate"] }
