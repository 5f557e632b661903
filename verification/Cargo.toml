[package]
name = "lib_patcher"
version = "0.1.0"
edition = "2021"
publish = false

[dependencies]
ar = "0.9"
object = { version = "0.39", features = ["write"] }
clap = { version = "4", features = ["derive"] }
which = "*"
