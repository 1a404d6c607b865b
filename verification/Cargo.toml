[package]
name = "zmd_prtsc"
version = "0.1.0"
edition = "2021"
publish = false

[dependencies]
image = { version = "=0.25.10", default-features = false, features = ["png", "jpeg"] }
chrono = "=0.4.45"
rand = "=0.8.8"
serde = { version = "=1.0.229", features = ["derive"] }
rusqlite = { version = "=0.32.1", features = ["bundled"] }
anyhow = "=1.0.104"
tokio = { version = "=1.54.1", features = ["rt", "sync", "time", "macros"] }
windows = { version = "=0.58.0", features = ["Win32_Foundation", "Win32_Graphics_Gdi", "Win32_UI_WindowsAndMessaging", "Win32_UI_Input_KeyboardAndMouse", "Win32_Security", "Win32_System_Threading", "Win32_UI_Shell", "Win32_System_Console"] }
