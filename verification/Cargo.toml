[package]
name = "winston_transport"
version = "0.1.0"
edition = "2021"
publish = false

[dependencies]
chrono = "*"
dateparser = "*"
logform = "*"
parse_datetime = "*"
regex = "*"
serde = "*"
serde_json = "*"
