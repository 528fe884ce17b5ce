[package]
name = "win_expl"
version = "0.1.0"
edition = "2021"
publish = false

[dependencies]
time = { version = "0.3", features = ["formatting"] }
lhash = { version = "1", features = ["md5", "sha1", "sha256", "sha512"] }
serde = { version = "1", features = ["derive"] }
serde_json = "1"
