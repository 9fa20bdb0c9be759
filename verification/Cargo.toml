[package]
name = "pane"
version = "0.1.0"
edition = "2021"
publish = false

[dependencies]
image = { version = "0.25", default-features = false, features = ["png"] }
base64 = "0.22"
rusqlite = { version = "*", features = ["bundled"] }
serde = { version = "1", features = ["derive"] }
arboard = "3"
clipboard-master = "*"
rdev = "0.5"
