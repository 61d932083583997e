[package]
name = "dummycloud"
version = "0.1.0"
edition = "2021"
publish = false

[dependencies]
anyhow = "=1.0.104"
env_logger = "=0.11.11"
log = "=0.4.35"
native-tls = "=0.2.18"
rumqttc = { version = "=0.25.1", default-features = false, features = ["use-native-tls"] }
serde_json = "=1.0.154"
tokio = { version = "=1.54.1", features = ["macros", "rt-multi-thread", "net", "io-util", "sync", "time"] }
url = "=2.5.8"
