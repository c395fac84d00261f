[package]
name = "misskey_id"
version = "0.1.0"
edition = "2021"
publish = false

[dependencies]
chrono = "0.4"
lazy_static = "1"
nanoid = "0.4"
rand = "0.9"
regex = "1"
ulid = "1"
