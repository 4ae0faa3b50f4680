[package]
name = "rdb"
version = "0.1.0"
edition = "2021"
publish = false

[dependencies]
byteorder = "1"
lzf = "*"
regex = "1"
indexmap = "2"
rustc-serialize = "0.3"
clap = { version = "4", features = ["derive"] }
thiserror = "1"
