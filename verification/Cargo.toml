[package]
name = "sevenzip_mt"
version = "0.1.0"
edition = "2021"
publish = false

[dependencies]
lzma-rust2 = "*"
crc32fast = "*"
rayon = "*"
clap = { version = "*", features = ["derive"] }
thiserror = "*"
