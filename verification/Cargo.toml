[package]
name = "gir"
version = "0.1.0"
edition = "2021"
publish = false

[dependencies]
regex = "1"
rand = "0.8"
base64 = "0.21"
leetspeak = "*"
random_word = "0.3"
tokio = { version = "1", features = ["full"] }
tokio-native-tls = "0.3"
tokio-socks = "0.5"
toml = "0.7"
serde = { version = "1", features = ["derive"] }
colored = "2"
async-openai = "0.10"
openssl = "0.10"
