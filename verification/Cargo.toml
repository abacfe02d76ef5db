[package]
name = "rconfigure"
version = "0.1.0"
edition = "2021"
publish = false

[dependencies]
rhai = "*"
serde = { version = "*", features = ["derive"] }
toml = "*"
dirs = "*"
far = "*"
clap = { version = "*", features = ["derive"] }
main_error = "*"
quiz = "*"
