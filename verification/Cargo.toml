[package]
name = "fs_fixture"
version = "0.1.0"
edition = "2021"
publish = false

[dependencies]
arbitrary = "1"
libc = "0.2"
normalize-path = "0.2"
tempfile = "3"
walkdir = "2"
