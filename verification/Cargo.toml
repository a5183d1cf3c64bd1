[package]
name = "rust_core"
version = "0.2.1"
edition = "2021"
publish = false

[dependencies]
aes-gcm = "0.10"
argon2 = "0.5"
base64 = "0.22"
generic-array = "0.14"
getrandom = "0.2"
zeroize = "1"
thiserror = "1"
winreg = "0.52"
