[package]
name = "cd-core"
version = "0.1.0"
edition = "2021"
publish = false

[dependencies]
sha1 = "0.10"
serde = { version = "1", features = ["derive"] }
serde_json = "1"
ureq = { version = "2", features = ["json"] }
libc = "0.2"
libloading = "0.8"
