[package]
name = "chat_server"
version = "0.1.0"
edition = "2021"
publish = false

[dependencies]
tui = "0.19"
crossterm = "0.25"
async-std = "1"
futures = "0.3"
postgres = "0.19"
lazy_static = "1"
