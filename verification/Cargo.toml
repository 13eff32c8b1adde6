[package]
name = "raddy"
version = "0.1.0"
edition = "2021"
publish = false

[dependencies]
http = "=1.5.0"
flate2 = "=1.1.10"
zstd = "=0.14.3"
mime_guess = "=2.0.5"
openssl = "=0.10.82"
tokio = { version = "=1.54.1", features = ["full"] }
bytes = "=1.12.1"
async-trait = "=0.1.92"
tracing = "=0.1.44"
clap = { version = "=4.6.7", features = ["derive"] }

[dev-dependencies]
rcgen = "=0.14.10"
