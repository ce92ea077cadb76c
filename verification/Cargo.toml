[package]
name = "macdedup"
version = "0.1.0"
edition = "2021"
publish = false

[dependencies]
anyhow = "1"
blake3 = "1"
bytesize = "1"
clap = { version = "4", features = ["derive"] }
crossbeam-channel = "0.5"
crossterm = "0.28"
filetime = "0.2"
libc = "0.2"
ratatui = "0.29"
rayon = "1"
reflink = "0.1"
walkdir = "2"
xattr = "1"
