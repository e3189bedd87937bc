[package]
name = "sandbox_fs"
version = "0.1.0"
edition = "2021"
publish = false

[dependencies]
zip = "=8.6.0"
time = { version = "=0.3.55", features = ["formatting", "local-offset"] }
