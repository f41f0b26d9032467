[package]
name = "gameserver"
version = "0.1.0"
edition = "2021"
publish = false

[dependencies]
confy = "=2.0.0"
futures-util = "=0.3.34"
glam = "=0.34.1"
reqwest = { version = "=0.13.5", default-features = false }
serde = { version = "=1.0.229", features = ["derive"] }
serde_json = "=1.0.154"
serde_repr = "=0.1.21"
serde-wasm-bindgen = "=0.6.5"
thiserror = "=2.0.21"
tokio = { version = "=1.54.1", features = ["full"] }
tokio-stream = "=0.1.19"
warp = { version = "=0.4.3", features = ["server", "websocket"] }
wasm-bindgen = "=0.2.129"
web-sys = { version = "=0.3.106", features = ["Window", "Performance"] }
