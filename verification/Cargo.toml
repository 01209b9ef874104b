[package]
name = "runi"
version = "0.1.0"
edition = "2021"
publish = false

[dependencies]
nu-ansi-term = "*"
thiserror = "*"
tracing = "*"
tracing-subscriber = { version = "*", features = ["env-filter", "json", "fmt"] }
chrono = { version = "*", features = ["clock"] }
