[package]
name = "hazmat"
version = "0.1.0"
edition = "2021"
publish = false

[dependencies]
aes = "0.8"
ctr = "0.9"
argon2 = "0.5"
bytesize = "2"
anyhow = "1"
clap = { version = "4", features = ["derive"] }
indicatif = "0.17"
libc = "0.2"
libublk = "0.4"
rpassword = "7"
signal-hook = "0.3"
smol = "2"
