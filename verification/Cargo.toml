[package]
name = "obel"
version = "0.1.0"
edition = "2021"
publish = false

[dependencies]
blake3 = "=1.8.7"
urlencoding = "=2.1.3"
serde = { version = "=1.0.229", features = ["derive"] }
serde_json = "=1.0.154"
rusqlite = { version = "=0.32.1", features = ["bundled"] }
lofty = "=0.21.1"
walkdir = "=2.5.0"
reqwest = { version = "=0.12.28", default-features = false, features = ["json", "rustls-tls"] }
tokio = { version = "=1.54.1", features = ["process", "rt"] }
discord-rich-presence = "=0.2.5"
rodio = "=0.20.1"
cpal = "=0.15.3"
windows = { version = "=0.54.0", features = ["Win32_Foundation", "Win32_Storage_FileSystem"] }
