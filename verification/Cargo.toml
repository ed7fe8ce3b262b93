[package]
name = "myboot"
version = "0.1.0"
edition = "2021"
publish = false

[dependencies]
anyhow = "1"
bytemuck = "1"
bzip2 = "*"
clap = { version = "4", features = ["derive"] }
flate2 = "1"
lz4 = "*"
lzma-rust2 = "*"
memmap2 = "*"
ring = "0.17"
zopfli = "*"
