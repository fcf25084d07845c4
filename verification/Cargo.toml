[package]
name = "xtools"
version = "0.1.0"
edition = "2021"
publish = false

[dependencies]
serde = { version = "=1.0.229", features = ["derive"] }
serde_json = { version = "=1.0.154", features = ["preserve_order"] }
jiff = "=0.2.39"
ureq = { version = "=3.5.1", features = ["json"] }
thiserror = "=2.0.21"
x11rb = "=0.13.2"
libc = "=0.2.191"
