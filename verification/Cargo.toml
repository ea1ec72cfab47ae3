[package]
name = "fang"
version = "0.1.0"
edition = "2021"
publish = false

[dependencies]
async-fn-stream = "*"
color-eyre = "0.6"
eyre = "0.6"
hex = "0.4"
hidapi = { version = "2", default-features = false, features = ["linux-native-basic-udev"] }
nix = { version = "*", features = ["fs"] }
parking_lot = "0.12"
tokio = { version = "1", features = ["full"] }
tokio-stream = "0.1"
tracing = "0.1"
tracing-subscriber = { version = "0.3", features = ["env-filter"] }
udev = "0.9"
zbus = { version = "5", default-features = false, features = ["tokio"] }
zerocopy = { version = "0.8", features = ["derive"] }
