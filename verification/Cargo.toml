[package]
name = "azure_iot_operations_connector"
version = "0.1.0"
edition = "2021"
publish = false

[dependencies]
regex = "=1.13.1"
serde = { version = "=1.0.229", features = ["derive"] }
serde_json = "=1.0.154"
thiserror = "=2.0.21"
log = "=0.4.35"
tokio = { version = "1", features = ["rt", "macros", "sync", "time"] }
tokio-util = "0.7"
