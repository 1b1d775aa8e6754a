[package]
name = "ukvm"
version = "0.1.0"
edition = "2021"
publish = false

[dependencies]
tokio = { version = "=1.53.2", features = ["full"] }
futures-util = "=0.3.34"
tokio-stream = { version = "=0.1.19", features = ["sync", "net"] }
warp = { version = "=0.4.3", features = ["websocket"] }
zbus = "=5.19.0"
gpiod = "=0.3.0"
hidg-core = "=0.2.0"
linux-video = "=0.1.1"
serde = { version = "=1.0.229", features = ["derive"] }
serde_json = "=1.0.151"
toml = "=1.1.7"
thiserror = "=2.0.21"
argp = "=0.4.1"
async-trait = "=0.1.92"
quick-xml = "=0.42.0"
tracing = "=0.1.44"
tracing-subscriber = { version = "=0.3.23", features = ["env-filter"] }
tracing-journald = "=0.3.2"
