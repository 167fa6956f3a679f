[package]
name = "ex3"
version = "0.1.0"
edition = "2021"
publish = false

[dependencies]
chrono = "0.4"
nix = "0.26"
gpio-cdev = "0.6"
spidev = "0.6"
log = "0.4"
tokio = { version = "1", features = ["net", "io-util", "rt", "rt-multi-thread", "macros", "time", "sync"] }
serde_json = "1"
