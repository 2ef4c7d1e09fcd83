[package]
name = "dualsense_input"
version = "0.1.0"
edition = "2021"
publish = false

[dependencies]
hidapi = { version = "2.6", default-features = false, features = ["linux-native-basic-udev"] }
