[package]
name = "audio_sharing"
version = "0.1.0"
edition = "2021"
publish = false

[dependencies]
libadwaita = { version = "0.5", features = ["v1_3"] }
glib = "0.18"
pipewire = "0.8"
async-channel = "2"
log = "0.4"
once_cell = "1"
libc = "0.2"
