[package]
name = "ggv"
version = "0.1.0"
edition = "2021"
publish = false

[dependencies]
anyhow = "1"
clap = { version = "4", features = ["derive"] }
dirs = "6"
git2 = { version = "0.20", default-features = false }
pulldown-cmark = "0.13"
