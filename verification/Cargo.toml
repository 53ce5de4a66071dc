[package]
name = "redust"
version = "0.1.0"
edition = "2021"
publish = false

[dependencies]
atoi = "2"
bytes = "1"
tokio = { version = "1", features = ["full"] }
tokio-stream = "0.1"
async-stream = "0.3"
tracing = "0.1"
tracing-subscriber = "0.3"
structopt = "0.3"
log = "0.4"
