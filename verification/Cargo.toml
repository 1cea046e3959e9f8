[package]
name = "serial_tool"
version = "0.1.0"
edition = "2021"
publish = false

[dependencies]
serialport = { version = "4", default-features = false }
serde = { version = "1", features = ["derive"] }
serde_json = { version = "1", features = ["preserve_order"] }
chrono = "0.4"
clap = { version = "4", features = ["derive"] }
uuid = { version = "1", features = ["v4"] }
