[package]
name = "svn_desktop_tool"
version = "0.1.0"
edition = "2021"
publish = false

[dependencies]
quick-xml = "0.37"
similar = "2"
base64 = "0.22"
serde = { version = "1", features = ["derive"] }
serde_json = "1"
notify = "8"
