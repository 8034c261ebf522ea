[package]
name = "udps"
version = "0.4.1"
edition = "2021"
publish = false

[dependencies]
rand = "0.7"
rmp-serde = "1"
serde = { version = "1", features = ["derive"] }
openssl = "0.10"
libc = "0.2"
