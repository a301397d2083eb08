[package]
name = "galncelet"
version = "0.1.0"
edition = "2021"
publish = false

[dependencies]
serde = { version = "=1.0.229", features = ["derive"] }
serde_json = "=1.0.154"
regex = "=1.13.1"
urlencoding = "=2.1.3"
base64 = "=0.22.1"
tokio = { version = "=1.54.1", features = ["full"] }
futures-util = "=0.3.34"
tokio-tungstenite = "=0.24.0"
reqwest = { version = "=0.12.28", default-features = false, features = ["json", "blocking", "stream", "rustls-tls"] }
notify = "=6.1.1"
notify-debouncer-mini = "=0.4.1"
sysinfo = "=0.30.13"
nvml-wrapper = "=0.10.0"
arboard = "=3.4.1"
winreg = "=0.52.0"
