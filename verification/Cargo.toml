[package]
name = "ruble"
version = "0.1.0"
edition = "2021"
publish = false

[dependencies]
roxmltree = "0.20"
base64 = "0.22"
printpdf = "0.6"
clap = { version = "4", features = ["derive"] }
walkdir = "2"
anyhow = "1"
