[package]
name = "wtf"
version = "1.0.0"
edition = "2021"
publish = false

[dependencies]
snap = "1"
flume = "*"
chrono = "0.4"
once_cell = "1"
