[package]
name = "xladd"
version = "0.1.0"
edition = "2021"
publish = false

[dependencies]
ndarray = "*"
widestring = "*"
winapi = { version = "0.3", features = ["libloaderapi", "minwindef"] }
