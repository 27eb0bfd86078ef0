[package]
name = "winshoweq"
version = "0.1.0"
edition = "2021"
publish = false

[dependencies]
chrono = "0.4"
sha1_smol = "1"
serde_json = "1"
quick-xml = "*"
clap = { version = "4", features = ["derive"] }
ureq = "*"
