[package]
name = "transcribe_cli"
version = "0.1.0"
edition = "2021"
publish = false

[dependencies]
anyhow = "1"
axum = "0.8"
clap = { version = "4", features = ["derive"] }
futures-util = "0.3"
indicatif = "0.17"
mel_spec = { version = "*", default-features = false }
ndarray = "0.16"
ndarray-npy = "0.9"
ort = { version = "=2.0.0-rc.10", default-features = false, features = ["std", "ndarray", "load-dynamic"] }
reqwest = { version = "0.12", default-features = false, features = ["json", "stream"] }
rustfft = "6"
serde = { version = "1", features = ["derive"] }
serde_json = "1"
serde_yaml = "0.9"
symphonia = { version = "0.5", features = ["all"] }
tempfile = "3"
tokio = { version = "1", features = ["full"] }
tokio-stream = "0.1"
url = "2"
zip = { version = "2", default-features = false, features = ["deflate"] }
