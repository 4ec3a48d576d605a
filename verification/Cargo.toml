[package]
name = "cargo-sandbox"
version = "0.1.0"
edition = "2021"
publish = false

[dependencies]
serde = { version = "1", features = ["derive"] }
serde_json = "1"
toml = "0.5"
anstream = "0.6"
anstyle = "1"
ctor = "*"
errno = "0.3"
home = "0.5"
libc = "0.2"
