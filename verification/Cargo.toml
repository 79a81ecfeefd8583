[package]
name = "droute"
version = "0.1.0"
edition = "2021"
publish = false

[dependencies]
async-trait = "*"
serde = { version = "*", features = ["derive"] }
thiserror = "*"
tokio = { version = "*", features = ["rt", "time", "macros", "net"] }
trust-dns-client = "*"
trust-dns-proto = "*"
