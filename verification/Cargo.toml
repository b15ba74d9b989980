[package]
name = "elevate_pam"
version = "0.1.0"
edition = "2021"
publish = false

[dependencies]
libc = "0.2"
once_cell = "1"
serde = { version = "1", features = ["derive"] }
toml = "0.8"
zeroize = "1"
