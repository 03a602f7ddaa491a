[package]
name = "eeeee"
version = "0.1.0"
edition = "2021"

[dependencies]
unicode-xid = "0.2"
