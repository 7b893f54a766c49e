[package]
name = "vuoom"
version = "0.1.0"
edition = "2021"
publish = false

[dependencies]
base64 = "=0.22.1"
bytemuck = { version = "=1.25.2", features = ["derive"] }
clipboard-win = "5"
color_quant = "=1.1.0"
futures-util = "=0.3.34"
getrandom = "=0.2.17"
gif = "=0.14.2"
glam = { version = "=0.34.2", features = ["serde"] }
glyphon = "=0.9.0"
png = "=0.18.1"
pollster = "=0.4.0"
serde = { version = "=1.0.229", features = ["derive"] }
serde_json = "=1.0.154"
tokio = { version = "=1.54.1", features = ["net", "sync", "rt", "rt-multi-thread", "macros"] }
tokio-tungstenite = "=0.30.0"
tracing = "=0.1.44"
tracing-appender = "0.2"
tracing-subscriber = { version = "0.3", features = ["env-filter"] }
wgpu = "=25.0.2"
windows = { version = "0.62", features = [
    "Win32_Foundation",
    "Win32_Graphics_Dwm",
    "Win32_Graphics_Gdi",
    "Win32_Media_MediaFoundation",
    "Win32_Storage_FileSystem",
    "Win32_Storage_Xps",
    "Win32_System_Com",
    "Win32_System_LibraryLoader",
    "Win32_System_Performance",
    "Win32_System_Threading",
    "Win32_UI_HiDpi",
    "Win32_UI_Input_KeyboardAndMouse",
    "Win32_UI_Shell",
    "Win32_UI_WindowsAndMessaging",
] }
windows-capture = "2"
