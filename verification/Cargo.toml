[package]
name = "hermes_studio"
version = "0.1.0"
edition = "2021"
publish = false

[dependencies]
anyhow = "1"
axum = { version = "=0.7.9", features = ["multipart"] }
chrono = "0.4"
clap = { version = "4", features = ["derive"] }
colorful = "0.3"
dyn-clone = "1"
figment = { version = "0.10", features = ["json", "env"] }
hermes-five = { version = "=0.1.0", default-features = false, features = ["serde"] }
log = { version = "0.4", features = ["serde"] }
log4rs = { version = "1", default-features = false, features = ["console_appender", "rolling_file_appender", "compound_policy", "fixed_window_roller", "size_trigger"] }
parking_lot = "0.12"
rodio = { version = "=0.23.0", default-features = false }
serde = { version = "1", features = ["derive"] }
serde_json = "1"
socketioxide = { version = "=0.14.1", features = ["state"] }
tokio = { version = "1", features = ["full"] }
toml = "=0.8.23"
tower-http = { version = "=0.5.2", features = ["cors", "fs"] }
typetag = "0.2"
