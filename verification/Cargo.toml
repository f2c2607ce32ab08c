[package]
name = "tdlang"
version = "0.1.0"
edition = "2021"
publish = false

[dependencies]
unicode-xid = "0.2"
unescape = "0.1"
indexmap = "2"
slotmap = "1"
ordered-float = "*"
walrus = "*"
anyhow = "1"
