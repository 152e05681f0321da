[package]
name = "chaff"
version = "0.1.0"
edition = "2021"
publish = false

[dependencies]
rand = "=0.8.8"
serde = { version = "=1.0.229", features = ["derive"] }
serde_json = "=1.0.154"
winreg = "=0.52.0"
winapi = { version = "=0.3.9", features = ["synchapi", "namedpipeapi", "handleapi", "winnt", "minwindef"] }
eframe = { version = "=0.29.1", default-features = false, features = ["glow", "default_fonts"] }
tray-icon = { version = "=0.19.3", default-features = false }
ureq = "2"
