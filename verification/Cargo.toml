[package]
name = "hydr"
version = "0.1.0"
edition = "2021"
publish = false

[dependencies]
blake3 = "1"
getrandom = "0.3"
sha2 = "0.10"
base64 = "0.22"
clap = { version = "4", features = ["derive"] }
serde = { version = "1", features = ["derive"] }
serde_yaml = "0.9"
futures-util = { version = "0.3", features = ["sink"] }
tokio = { version = "1", features = ["full"] }
tokio-tungstenite = { version = "0.26", features = ["rustls-tls-webpki-roots"] }
tracing = "0.1"
tracing-subscriber = { version = "0.3", features = ["env-filter"] }
rustls = { version = "0.23", default-features = false, features = ["ring", "std", "tls12", "logging"] }
quinn = { version = "0.11", default-features = false, features = ["runtime-tokio", "rustls-ring"] }
quinn-proto = { version = "0.11", default-features = false }
rcgen = { version = "0.14", default-features = false, features = ["crypto", "pem", "ring"] }
webpki-roots = "1"
