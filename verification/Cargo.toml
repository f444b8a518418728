[package]
name = "simpleroute"
version = "0.1.0"
edition = "2021"
publish = false

[dependencies]
serde = { version = "1", features = ["derive"] }
serde_json = "1"
chrono = { version = "0.4", default-features = false, features = ["clock"] }
parking_lot = "0.12"
png = "0.17"
eframe = { version = "0.29", default-features = false, features = ["default_fonts", "glow"] }
tray-icon = "0.19"
notify-rust = { version = "4", default-features = false, features = ["d"] }
windows-sys = { version = "0.52", features = ["Win32_Foundation", "Win32_NetworkManagement_IpHelper", "Win32_NetworkManagement_Ndis", "Win32_UI_WindowsAndMessaging"] }
