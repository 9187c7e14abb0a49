[package]
name = "agent_loop"
version = "0.1.0"
edition = "2021"
publish = false

[dependencies]
anyhow = "=1.0.104"
async-trait = "=0.1.92"
chrono = { version = "=0.4.45", default-features = false, features = ["std", "clock"] }
dirs = "=7.0.0"
dotenvy = "=0.15.7"
futures-util = { version = "=0.3.34", default-features = false, features = ["sink", "std"] }
regex = "=1.13.1"
reqwest = { version = "=0.12.28", default-features = false, features = ["stream", "rustls-tls"] }
serde = { version = "=1.0.229", features = ["derive"] }
serde_json = "=1.0.154"
tokio = { version = "=1.54.1", features = ["rt-multi-thread", "macros", "sync", "time", "net", "process"] }
tokio-tungstenite = { version = "=0.24.0", default-features = false, features = ["connect"] }
toml = "=1.1.8"
url = "=2.5.8"
uuid = { version = "=1.29.0", features = ["v4"] }
wasmtime = { version = "=46.0.3", default-features = false, features = ["cranelift", "runtime", "std"] }
