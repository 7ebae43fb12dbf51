[package]
name = "zebra_wire"
version = "0.1.0"
edition = "2021"
publish = false

[dependencies]
chrono = "*"
sha2 = "*"
log = "*"
tracing = "*"
tracing-appender = "*"
tracing-error = "*"
tracing-subscriber = { version = "*", features = ["env-filter"] }
atty = "*"
