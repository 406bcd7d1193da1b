[package]
name = "aincradfs_path"
version = "0.1.0"
edition = "2021"
publish = false

[dependencies]
bstr = { version = "1", default-features = false, features = ["std"] }
bytemuck = "1"
qp-trie = "0.8"
widestring = "1"
