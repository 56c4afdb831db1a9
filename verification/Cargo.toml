[package]
name = "webmachine"
version = "0.6.1"
edition = "2021"
publish = false

[dependencies]
chrono = "0.4"
http = "1"
http-body-util = "0.1"
bytes = "1"
futures = "0.3"
