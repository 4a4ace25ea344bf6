[package]
name = "telfhash-rs"
version = "0.1.0"
edition = "2021"
publish = false

[dependencies]
goblin = "*"
capstone = "*"
regex = "1"
tlsh-rs = "*"
clap = { version = "4", features = ["derive"] }
glob = "0.3"
walkdir = "2"
serde = { version = "1", features = ["derive"] }
serde_json = "1"
thiserror = "*"
