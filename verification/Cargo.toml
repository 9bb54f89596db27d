[package]
name = "openqa_worker_mgmt"
version = "0.1.0"
edition = "2021"
publish = false

[dependencies]
systemctl = "*"
