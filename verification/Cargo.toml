[package]
name = "patchcord"
version = "0.1.0"
edition = "2021"
publish = false

[dependencies]
arwen = "*"
cookie-factory = "*"
libc = "*"
libspa = "*"
miniserde = "*"
pipewire = "*"
