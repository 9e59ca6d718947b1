[package]
name = "mascot"
version = "0.1.0"
edition = "2021"
publish = false

[dependencies]
cpal = "0.16"
rusqlite = { version = "0.37", features = ["bundled"] }
serde = { version = "1", features = ["derive"] }
toml = "0.9"
vosk = "0.3"
windows-sys = { version = "0.60", features = ["Win32_Foundation", "Win32_System_SystemInformation", "Win32_System_Threading", "Win32_UI_Input_KeyboardAndMouse", "Win32_UI_WindowsAndMessaging"] }
