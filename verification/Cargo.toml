[package]
name = "png_msg"
version = "0.1.0"
edition = "2021"
publish = false

[dependencies]
crc32fast = "1"
clap = { version = "4", features = ["derive"] }
iced = { version = "0.13", default-features = false, features = ["tiny-skia"] }
rfd = "*"
