[package]
name = "agent_desktop"
version = "0.1.0"
edition = "2021"
publish = false

[dependencies]
anyhow = "=1.0.104"
base64 = "=0.22.1"
clap = { version = "=4.6.7", features = ["derive"] }
dirs = "=5.0.1"
futures-util = "=0.3.34"
image = { version = "=0.25.10", default-features = false, features = ["png"] }
indicatif = "=0.17.11"
ndarray = "=0.16.1"
ort = { version = "=2.0.0-rc.15", default-features = false, features = ["load-dynamic"] }
reqwest = { version = "=0.12.28", default-features = false, features = ["stream"] }
serde = { version = "=1.0.229", features = ["derive"] }
serde_json = "=1.0.154"
sha2 = "=0.10.9"
tempfile = "=3.27.0"
tokenizers = { version = "=0.23.2", default-features = false, features = ["onig"] }
xa11y = "=0.15.4"
xa11y-core = "=0.15.4"
