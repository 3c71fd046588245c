[package]
name = "tar_async"
version = "0.1.0"
edition = "2021"
publish = false

[dependencies]
bytes = "0.4"
failure = "0.1"
futures = "0.1"
tar = { version = "0.4", default-features = false }
