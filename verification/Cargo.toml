[package]
name = "sdroxide"
version = "0.1.0"
edition = "2021"
publish = false

[dependencies]
anyhow = "1"
base64 = "0.22"
crc32fast = "1"
crossbeam-channel = "0.5"
getrandom = "0.3"
num-complex = "0.4"
nusb = "0.2"
rand = "0.8"
rand_distr = "0.4"
roxmltree = "0.20"
rtrb = "0.3"
rustfft = "6"
serde = { version = "1", features = ["derive"] }
serde_json = "1"
serialport = { version = "4", default-features = false }
tokio = { version = "1", features = ["net", "io-util", "sync", "rt", "time"] }
tracing = "0.1"
