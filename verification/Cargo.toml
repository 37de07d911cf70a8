[package]
name = "migoyugo"
version = "0.1.0"
edition = "2021"
publish = false

[dependencies]
rand = "0.9"
rand_chacha = "0.9"
serde = { version = "1", features = ["derive"] }
serde_json = "1"
ron = "0.8"
thiserror = "2"
anyhow = "1"
clap = { version = "4", features = ["derive"] }
ctrlc = "3"
kdl = "6"
