[package]
name = "sota_save"
version = "0.1.0"
edition = "2021"
publish = false

[dependencies]
chrono = "0.4"
num-format = "0.4"
regex = "1"
serde_json = "1"
sys-locale = "0.3"
