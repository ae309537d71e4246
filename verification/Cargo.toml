[package]
name = "archive_tree"
version = "0.1.0"
edition = "2021"
publish = false

[dependencies]
anyhow = "1"
argh = "0.1"
async-std = { version = "1", features = ["attributes"] }
chardetng = "0.1"
crossterm = { version = "0.18", features = ["event-stream"] }
encoding_rs = "0.8"
fuser = "0.7"
futures = "0.3"
futures-timer = "3"
libc = "0.2"
parking_lot = "0.11"
smallvec = "1"
tui = { version = "0.14", default-features = false, features = ["crossterm"] }
unicode-segmentation = "1"
unicode-width = "0.1"
zip = { version = "0.5", default-features = false, features = ["deflate"] }
