[package]
name = "systemctui"
version = "0.1.0"
edition = "2021"
publish = false

[dependencies]
ratatui = "0.28"
systemctl = "0.3"
