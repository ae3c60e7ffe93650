[package]
name = "tresor"
version = "1.0.0"
edition = "2021"
publish = false

[dependencies]
aes-gcm = "0.9"
base64 = "0.13"
clap = "2.33"
openssl = "0.10"
rpassword = "5.0"
rusqlite = "0.25"
