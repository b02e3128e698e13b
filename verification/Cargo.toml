[package]
name = "oil"
version = "0.1.0"
edition = "2021"
publish = false

[dependencies]
quick-xml = "*"
sha2 = "0.10"
xz2 = "0.1"
flate2 = "1"
serde = { version = "1", features = ["derive"] }
serde_json = "1"
reqwest = { version = "0.12", default-features = false, features = ["rustls-tls", "gzip"] }
tokio = { version = "1", features = ["rt", "rt-multi-thread", "macros", "process", "fs"] }
tempfile = "3"
console = "*"
tracing = "0.1"
nix = { version = "*", features = ["user"] }
