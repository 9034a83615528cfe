[package]
name = "csv_compare"
version = "0.1.0"
edition = "2021"
publish = false

[dependencies]
csv = "1"
encoding_rs = "0.8"
chardetng = "0.1"
chrono = "0.4"
rust_xlsxwriter = "*"
serde = { version = "1", features = ["derive"] }
serde_json = "1"
thiserror = "*"
log = "0.4"
env_logger = "*"
