[package]
name = "slasher_horrorscripts"
version = "0.1.0"
edition = "2021"
publish = false

[dependencies]
ansi-width = "=0.1.1"
anyhow = "=1.0.104"
clap = { version = "=4.6.7", features = ["derive"] }
colored = "=3.1.1"
image = { version = "=0.25.10", default-features = false, features = ["png"] }
libc = "=0.2.191"
px2ansi = "=0.4.0"
rand = "=0.9.5"
rust-embed = { version = "=8.13.0", features = ["interpolate-folder-path"] }
sysinfo = "=0.40.1"
unicode-width = "=0.2.3"
