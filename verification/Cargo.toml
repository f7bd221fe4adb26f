[package]
name = "phone"
version = "0.1.0"
edition = "2021"
publish = false

[dependencies]
regex = "1"
clap = { version = "4", features = ["derive"] }
clap_complete = "4"
csv = "1"
serde = { version = "1", features = ["derive"] }
