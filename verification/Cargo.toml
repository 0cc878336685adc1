[package]
name = "walrus"
version = "0.1.0"
edition = "2021"
publish = false

[dependencies]
ipnetwork = "*"
csv = "*"
encoding_rs_io = "*"
tokio = { version = "*", features = ["rt-multi-thread", "macros", "sync", "io-util"] }
futures = "*"
indicatif = "*"
structopt = "*"
chrono = "*"
