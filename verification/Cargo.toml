[package]
name = "growattproxy"
version = "0.1.0"
edition = "2021"
publish = false

[dependencies]
chrono = "*"
crc16 = "*"
clap = { version = "*", features = ["derive", "env"] }
env_logger = "*"
log = "*"
pcap = "*"
rumqttc = "*"
serde_json = "*"
tokio = { version = "*", features = ["rt", "net", "io-util", "macros", "time"] }

[dev-dependencies]
num-rational = "*"
