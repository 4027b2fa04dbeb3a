[package]
name = "howlingwind"
version = "0.1.0"
edition = "2021"
publish = false

[dependencies]
crc32fast = "=1.5.4"
serde = { version = "=1.0.229", features = ["derive"] }
serde_json = "=1.0.154"
tokio = { version = "=1.54.1", features = ["rt-multi-thread", "net", "sync", "time", "io-util", "macros"] }
reqwest = { version = "=0.12.28", default-features = false, features = ["json", "stream", "rustls-tls"] }
zip = { version = "=2.6.1", default-features = false, features = ["deflate"] }
futures-util = "=0.3.34"
windows-sys = { version = "=0.61.2", features = ["Win32_Foundation", "Win32_System_Diagnostics_Debug", "Win32_System_Diagnostics_ToolHelp", "Win32_System_LibraryLoader", "Win32_System_Memory", "Win32_System_Threading"] }
