[package]
name = "mouse_actions"
version = "0.1.0"
edition = "2021"
publish = false

[dependencies]
dirs-sys = "*"
log = "0.4"
notify = "*"
rdev = { version = "*", features = ["unstable_grab"] }
serde = { version = "1", features = ["derive"] }
serde_json = "1"
