[package]
name = "lua_bindings"
version = "0.1.0"
edition = "2021"
publish = false

[dependencies]
clap = { version = "4", features = ["derive"] }
flate2 = "1"
mlua = { version = "0.10", features = ["luau"] }
regex = "1"
reqwest = { version = "0.12", features = ["blocking"] }
serde_json = "1"
tar = "0.4"
walkdir = "2"
windows = { version = "0.61", features = ["Win32_Foundation", "Win32_System_Threading", "Win32_UI_WindowsAndMessaging"] }
