[package]
name = "batch_compress"
version = "0.1.0"
edition = "2021"
publish = false

[dependencies]
anyhow = "1"
clap = { version = "4", features = ["derive"] }
crossterm = "*"
image_compressor = "*"
indicatif = "*"
ratatui = "*"
rfd = "*"
tokio = { version = "1", features = ["macros", "rt-multi-thread"] }
