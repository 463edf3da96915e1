[package]
name = "textprep"
version = "0.1.0"
edition = "2021"
publish = false

[dependencies]
aho-corasick = "*"
serde = { version = "*", features = ["derive"] }
unicode-normalization = "*"
unicode-casefold = "*"
unicode-segmentation = "*"
