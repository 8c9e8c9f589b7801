[package]
name = "eve_wrench"
version = "0.1.0"
edition = "2021"
publish = false

[dependencies]
blue-marshal = "=1.0.1"
serde = { version = "=1.0.229", features = ["derive"] }
serde_json = "=1.0.154"
sha2 = "=0.10.9"
zip = { version = "=2.6.1", default-features = false, features = ["deflate"] }
filetime = "=0.2.29"
dirs = "=7.0.0"
windows-sys = { version = "=0.61.2", features = ["Win32_Foundation", "Win32_System_Diagnostics_ToolHelp", "Win32_Storage_FileSystem"] }
