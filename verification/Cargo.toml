[package]
name = "crowbar"
version = "0.1.0"
edition = "2021"
publish = false

[dependencies]
url = "2"
urlencoding = "2"
chrono = "0.4"
open = "5"
rusqlite = { version = "0.31", features = ["bundled"] }
