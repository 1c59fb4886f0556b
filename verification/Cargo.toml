[package]
name = "meet_scheduler"
version = "0.1.0"
edition = "2021"
publish = false

[dependencies]
chrono = "0.4"
google-calendar3 = "*"
anyhow = "1"
thiserror = "1"
tracing = "0.1"
rand = "0.8"
