[package]
name = "blobstack"
version = "0.1.0"
edition = "2021"
publish = false

[dependencies]
sha1 = "*"
base64 = "*"
rand = "*"
clap = "*"
anyhow = "*"
