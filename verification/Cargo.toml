[package]
name = "osu_ipc"
version = "0.1.0"
edition = "2021"
publish = false

[dependencies]
anyhow = "*"
cpu-endian = "*"
log = "*"
rosu-pp = "*"
serde = { version = "*", features = ["derive"] }
serde_json = "*"
simplelog = "*"
ureq = { version = "*", default-features = false }
version-compare = "*"
