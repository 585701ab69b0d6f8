[package]
name = "star_control"
version = "0.1.0"
edition = "2021"
publish = false

[dependencies]
chrono = { version = "=0.4.45", default-features = false, features = ["clock", "std"] }
jsonschema = { version = "=0.60.2", default-features = false }
serde = { version = "=1.0.229", features = ["derive"] }
serde_json = "=1.0.154"
sha2 = "0.10"
tokio = { version = "=1.54.1", features = ["rt-multi-thread", "macros", "time", "sync", "io-util", "io-std"] }
windows = { version = "=0.61.3", features = ["Win32_Foundation", "Win32_System_Registry", "Win32_Security_WinTrust", "Win32_Security_Cryptography", "Win32_Globalization"] }
