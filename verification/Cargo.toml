[package]
name = "chint"
version = "0.1.0"
edition = "2021"
publish = false

[dependencies]
anyhow = "1"
clap = { version = "4", features = ["derive"] }
clap_complete = "4"
difference = "2"
shlex = "1"
term = "0.7"
wait-timeout = "0.2"
