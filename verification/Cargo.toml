[package]
name = "template_overlay"
version = "0.1.0"
edition = "2021"
publish = false

[dependencies]
anyhow = "1"
clap = { version = "4", features = ["derive"] }
colored = "*"
indicatif = "*"
tempfile = "3"
tokio = { version = "1", features = ["rt-multi-thread", "macros", "fs"] }
