[package]
name = "owl_player"
version = "0.1.0"
edition = "2021"
publish = false

[dependencies]
anyhow = "1"
cpal = "*"
crossbeam-channel = "*"
env_logger = "*"
ffmpeg-next = "*"
gl = "*"
glib = "*"
gtk4 = { version = "*", features = ["v4_10"] }
libadwaita = { version = "*", features = ["v1_4"] }
libloading = "*"
log = "*"
parking_lot = "*"
serde = { version = "1", features = ["derive"] }
thiserror = "*"
toml = "*"
