[package]
name = "dsh_tools"
version = "1.17.0"
edition = "2021"

[dependencies]
chrono = "0.4"
serde_json = "1"
