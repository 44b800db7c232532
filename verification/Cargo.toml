[package]
name = "gptrepo"
version = "0.1.0"
edition = "2021"
publish = false

[dependencies]
wildmatch = "*"
clap = { version = "*", features = ["derive"] }
globwalk = "*"
