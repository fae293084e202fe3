[package]
name = "catnip_echo"
version = "0.1.0"
edition = "2021"
publish = false

[dependencies]
arrayvec = "0.7"
rand = "0.8"
libc = "0.2"
anyhow = "1"
