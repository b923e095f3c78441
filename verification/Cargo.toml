[package]
name = "xluau"
version = "0.1.0"
edition = "2021"
publish = false

[dependencies]
luau-parser = "*"
serde_json = "1"
thiserror = "*"
clap = { version = "4", features = ["derive"] }
glob = "*"
url = "2"
