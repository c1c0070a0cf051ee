[package]
name = "lockdown"
version = "0.1.0"
edition = "2021"
publish = false

[dependencies]
anyhow = "1"
ico = "0.3"
iced = { version = "0.13", default-features = false, features = ["tiny-skia"] }
rfd = "0.15"
thiserror = "1"
windows = { version = "0.58", features = ["Win32_Foundation", "Win32_Security", "Win32_Storage_FileSystem", "Win32_System_Services", "Win32_UI_Shell", "Win32_UI_WindowsAndMessaging"] }
windows-service = "0.7"
