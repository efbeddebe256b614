[package]
name = "blemesh"
version = "0.1.0"
edition = "2021"
publish = false

[dependencies]
bluer = { version = "0.17", features = ["bluetoothd"] }
clap = { version = "4", features = ["derive"] }
dbus = { version = "0.9", features = ["vendored"] }
futures = "0.3"
rand = "0.8"
tokio = { version = "1", features = ["full"] }
uuid = { version = "1", features = ["v4"] }
