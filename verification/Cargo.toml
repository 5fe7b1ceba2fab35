[package]
name = "mykvm"
version = "0.1.0"
edition = "2021"
publish = false

[dependencies]
ring = "=0.17.14"
serde = { version = "=1.0.229", features = ["derive"] }
rmp-serde = "=1.3.1"
if-addrs = "=0.15.0"
log = "=0.4.35"
tokio = { version = "=1.54.1", features = ["rt", "rt-multi-thread", "sync", "macros", "time", "net"] }
futures-util = "=0.3.34"
ashpd = { version = "=0.11.1", default-features = false, features = ["tokio"] }
reis = { version = "=0.6.1", features = ["tokio"] }
jni = "=0.21.1"
android_logger = "=0.15.1"
core-graphics = "=0.25.0"
core-foundation = "=0.10.1"
windows-sys = { version = "=0.59.0", features = ["Win32_Foundation", "Win32_UI_WindowsAndMessaging", "Win32_UI_Input_KeyboardAndMouse", "Win32_System_StationsAndDesktops", "Win32_System_LibraryLoader", "Win32_System_RemoteDesktop", "Win32_System_Threading"] }
