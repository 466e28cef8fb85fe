[package]
name = "ai-translate"
version = "0.1.0"
edition = "2021"
publish = false

[dependencies]
anyhow = "=1.0.104"
ashpd = { version = "=0.13.13", features = ["global_shortcuts"] }
clap = { version = "=4.6.7", features = ["derive"] }
directories = "=6.0.0"
eframe = { version = "=0.37.0", default-features = false, features = ["default_fonts", "glow", "wayland", "x11"] }
egui = "=0.37.0"
futures-util = "=0.3.34"
serde = { version = "1", features = ["derive"] }
serde_json = "=1.0.154"
tokio = { version = "=1.54.1", features = ["rt-multi-thread", "macros"] }
toml = "=1.1.8"
ureq = { version = "=3.5.1", features = ["json", "socks-proxy"] }
zbus = { version = "=5.19.0", default-features = false, features = ["tokio"] }
