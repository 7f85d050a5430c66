[package]
name = "esi_rust"
version = "0.1.0"
edition = "2021"
publish = false

[dependencies]
base64 = "0.22"
rand = "0.8"
urlencoding = "2"
open = "5"
hyper = { version = "0.14", default-features = false, features = ["server", "http1", "tcp"] }
reqwest = { version = "0.12", default-features = false }
