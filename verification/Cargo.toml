[package]
name = "auto_rappy"
version = "0.1.0"
edition = "2021"
publish = false

[dependencies]
windows-sys = { version = "0.60", features = ["Win32_Foundation", "Win32_UI_WindowsAndMessaging", "Win32_UI_Input_KeyboardAndMouse", "Win32_Graphics_Dwm", "Win32_Graphics_Gdi"] }
libloading = "*"
chrono = "0.4"
rand = "=0.9.5"
log = "=0.4.34"
simple_logger = "=5.2.0"
