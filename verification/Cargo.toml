[package]
name = "astroblasto_multiplayer"
version = "0.1.0"
edition = "2021"
publish = false

[dependencies]
ggez = "0.5"
rand = "0.8"
socket2 = "0.3"
tokio = { version = "1", features = ["rt", "net", "sync", "macros"] }
