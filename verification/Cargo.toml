[package]
name = "sniper_bot"
version = "0.1.0"
edition = "2021"
publish = false

[dependencies]
hmac = "0.12"
sha2 = "0.10"
base64 = "0.22"
uuid = { version = "1", features = ["v4"] }
tokio = { version = "1", features = ["rt-multi-thread", "macros", "net", "time", "io-util"] }
tokio-tungstenite = "*"
tokio-native-tls = "*"
native-tls = "*"
async-http-proxy = { version = "1", features = ["runtime-tokio"] }
futures-util = "0.3"
url = "2"
chrono = "0.4"
log = "0.4"
env_logger = "*"
dotenv = "*"
colored = "*"
serde = { version = "1", features = ["derive"] }
serde_json = { version = "1", features = ["raw_value"] }
