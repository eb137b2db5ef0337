[package]
name = "keel"
version = "0.1.0"
edition = "2021"
publish = false

[dependencies]
base64 = "0.22"
httparse = "1"
instant-acme = { version = "0.8", default-features = false, features = ["ring", "hyper-rustls", "rcgen"] }
ipnet = "2"
rcgen = { version = "0.13", default-features = false, features = ["crypto", "pem", "ring"] }
rustls = { version = "0.23", default-features = false, features = ["ring", "std", "tls12", "logging"] }
rustls-pemfile = "2"
serde = { version = "1", features = ["derive"] }
serde_json = "1"
serde_yaml = "0.9"
thiserror = "2"
time = "0.3"
tokio = { version = "1", features = ["rt", "time", "net"] }
x509-parser = "0.16"
