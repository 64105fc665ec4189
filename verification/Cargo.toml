[package]
name = "fileman"
version = "0.1.0"
edition = "2021"
publish = false

[dependencies]
egui = "=0.36.2"
eframe = { version = "=0.36.2", default-features = false, features = ["default_fonts", "glow", "x11"] }
egui_extras = "=0.36.2"
rusqlite = { version = "=0.41.1", features = ["bundled"] }
serde = { version = "=1.0.229", features = ["derive"] }
serde_json = "=1.0.154"
chrono = "=0.4.45"
trash = "=5.2.9"
zip = "=9.2.2"
tar = "=0.4.46"
flate2 = "=1.1.10"
rfd = "=0.17.2"
raw-window-handle = "=0.6.2"
windows = { version = "=0.62.2", features = ["Win32_Foundation", "Win32_Graphics_Gdi", "Win32_NetworkManagement_WNet", "Win32_Security", "Win32_Storage_FileSystem", "Win32_System_Com", "Win32_System_DataExchange", "Win32_System_IO", "Win32_System_Ioctl", "Win32_System_Memory", "Win32_System_Ole", "Win32_System_Registry", "Win32_System_SystemServices", "Win32_UI_Shell", "Win32_UI_Shell_Common", "Win32_UI_WindowsAndMessaging"] }
windows-core = "=0.62.2"
winreg = "*"

[dev-dependencies]
tempfile = "=3.27.0"
