[package]
name = "orexis"
version = "0.1.0"
edition = "2021"
publish = false

[dependencies]
semver = "=1.0.28"
patternscan = "=1.2.0"
serde = { version = "=1.0.229", features = ["derive"] }
serde_json = "=1.0.154"
anyhow = "=1.0.104"
log = "=0.4.35"
tokio = { version = "=1.54.1", features = ["rt-multi-thread", "net", "sync", "macros", "time"] }
tokio-tungstenite = "=0.30.0"
futures-util = { version = "=0.3.34", features = ["sink"] }
reqwest = { version = "=0.12.28", default-features = false, features = ["json", "rustls-tls"] }
parking_lot = "=0.12.5"
indoc = "=2.0.8"
ctor = "=1.0.13"
retour = { version = "*", features = ["static-detour"] }
win32_notif = "*"
windows = { version = "*", features = ["Win32_Foundation", "Win32_System_Diagnostics_Debug", "Win32_System_LibraryLoader", "Win32_System_ProcessStatus", "Win32_System_Threading"] }
