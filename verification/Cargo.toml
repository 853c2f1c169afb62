[package]
name = "motherboard"
version = "0.1.0"
edition = "2021"
publish = false

[dependencies]
tokio = { version = "1", features = ["rt-multi-thread", "macros", "time"] }
serialport = { version = "4", default-features = false }
once_cell = "1"
cfg-if = "1"
axum = { version = "0.6", features = ["ws"] }
dioxus = "0.4"
dioxus-liveview = { version = "0.4", features = ["axum"] }
