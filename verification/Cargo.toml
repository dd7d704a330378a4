[package]
name = "osc_booper"
version = "0.1.0"
edition = "2021"
publish = false

[dependencies]
clap = { version = "=4.6.7", features = ["derive"] }
dotenvy = "=0.15.7"
jiff = { version = "=0.2.38", features = ["serde"] }
mdns-proto = "=0.3.0"
oscquery = "*"
rand = "=0.9.5"
rosc = "=0.11.4"
serde = { version = "=1.0.229", features = ["derive"] }
serde_valid = { version = "=3.2.0", features = ["toml"] }
smallvec = "=1.16.4"
socket2 = "=0.6.5"
tokio = { version = "=1.54.1", features = ["full"] }
tokio-util = "=0.7.20"
toml = "=1.1.8"
tracing = "=0.1.44"
tracing-subscriber = { version = "=0.3.23", features = ["env-filter"] }
