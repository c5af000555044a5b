[package]
name = "holocubic"
version = "0.1.0"
edition = "2021"
publish = false

[dependencies]
ab_glyph = "=0.2.32"
base64 = "=0.22.1"
chrono = { version = "=0.4.45", default-features = false, features = ["std", "clock"] }
crc32fast = "=1.5.4"
eframe = { version = "=0.31.1", default-features = false, features = ["glow", "default_fonts", "x11"] }
egui-phosphor = "=0.9.0"
html-escape = "=0.2.15"
image = { version = "=0.25.10", default-features = false, features = ["jpeg", "png", "bmp", "webp"] }
regex = "=1.13.1"
rfd = { version = "*", default-features = false, features = ["xdg-portal"] }
rusqlite = { version = "=0.32.1", features = ["bundled"] }
serde = { version = "=1.0.229", features = ["derive"] }
serde_json = "=1.0.154"
serialport = { version = "=4.10.1", default-features = false }
sha2 = "=0.10.9"
ureq = { version = "=2.12.1", features = ["gzip"] }
uuid = { version = "=1.29.0", features = ["v4"] }
