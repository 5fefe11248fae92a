[package]
name = "task_nexus"
version = "0.1.0"
edition = "2021"
publish = false

[dependencies]
base64 = "*"
chrono = "*"
sysinfo = "*"
