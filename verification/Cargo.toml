[package]
name = "esstra"
version = "0.4.0"
edition = "2021"
publish = false

[dependencies]
elf = "*"
file-lock = "*"

[dev-dependencies]
serde_json = "1"
serde_yaml = "*"
