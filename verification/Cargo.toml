[package]
name = "commander"
version = "0.1.0"
edition = "2021"
publish = false

[dependencies]
chrono = "0.4"
directories = "5"
suppaftp = "6"
toml = "0.8"
serde = { version = "1", features = ["derive"] }
zip = { version = "0.6", default-features = false, features = ["deflate"] }
native-windows-gui = "1"
