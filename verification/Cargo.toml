[package]
name = "pipecat_audio_metrics"
version = "0.1.0"
edition = "2021"
publish = false

[dependencies]
anyhow = "1"
chrono = { version = "0.4", default-features = false, features = ["clock"] }
csv = "1"
dirs = "6"
eframe = { version = "0.31", default-features = false, features = ["glow", "default_fonts", "x11"] }
egui = { version = "0.31", default-features = false, features = ["default_fonts"] }
hound = "3.5"
libc = "0.2"
parking_lot = "0.12"
rtrb = "0.3"
serde = { version = "1", features = ["derive"] }
serde_json = "1"
tungstenite = "0.24"
