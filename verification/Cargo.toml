[package]
name = "drover_proxy"
version = "0.1.0"
edition = "2021"
publish = false

[dependencies]
base64 = "0.22"
dashmap = "6"
regex = "1"
once_cell = "1"
serde = { version = "1", features = ["derive"] }
toml = "0.8"
retour = { version = "0.3", features = ["static-detour"] }
windows = { version = "*", features = ["Win32_Foundation", "Win32_Networking_WinSock", "Win32_System_LibraryLoader", "Win32_System_SystemServices", "Win32_System_Threading", "Win32_System_Console", "Win32_System_Environment"] }
