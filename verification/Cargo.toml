[package]
name = "ragequiet"
version = "0.1.0"
edition = "2021"
publish = false

[dependencies]
anyhow = "=1.0.104"
cpal = { version = "=0.18.2", default-features = false }
futures = "=0.3.34"
iced = { version = "=0.14.0", default-features = false, features = ["canvas", "tiny-skia", "tokio", "x11"] }
png = "=0.18.1"
serde = { version = "=1.0.229", features = ["derive"] }
symphonia = { version = "=0.6.1", default-features = false, features = ["wav", "mp3", "pcm"] }
toml = "=0.9.12"
windows-sys = { version = "=0.61.2", features = ["Win32_Foundation", "Win32_System_Registry", "Win32_System_SystemInformation", "Win32_System_Threading", "Win32_Security"] }
