[package]
name = "icalnigma"
version = "0.3.2"
edition = "2021"
publish = false

[dependencies]
chrono = { version = "=0.4.45", features = ["serde"] }
chrono-tz = "=0.8.6"
clap = { version = "=3.2.25", features = ["derive"] }
encoding_rs = "=0.8.42"
html5ever = "=0.26.0"
markup5ever_rcdom = "=0.2.0"
serde = { version = "=1.0.229", features = ["derive"] }
serde_json = "=1.0.154"

[dev-dependencies]
regex = "=1.13.1"
