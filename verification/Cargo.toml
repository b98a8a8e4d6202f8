[package]
name = "aegis-host"
version = "0.1.0"
edition = "2021"
publish = false

[dependencies]
anyhow = "=1.0.104"
async-trait = "=0.1.92"
libc = "=0.2.191"
reqwest = { version = "=0.12.28", default-features = false }
serde = { version = "=1.0.229", features = ["derive"] }
serde_json = "=1.0.154"
tokio = { version = "=1.54.1", features = ["fs", "io-util", "macros", "rt-multi-thread", "time"] }
toml = "=0.8.23"
tracing = "=0.1.44"
tracing-subscriber = "=0.3.23"
uuid = { version = "=1.29.0", features = ["v4"] }
winapi = { version = "0.3", features = ["processthreadsapi", "winbase", "winnt"] }
windows = { version = "0.61", features = ["Win32_Foundation", "Win32_Security", "Win32_Security_Cryptography", "Win32_Security_Cryptography_Catalog", "Win32_Security_WinTrust", "Win32_System_HostComputeSystem"] }
