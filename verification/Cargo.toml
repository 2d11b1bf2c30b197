[package]
name = "kiro"
version = "0.1.0"
edition = "2021"
publish = false

[dependencies]
flexbuffers = "=25.12.19"
rand = "=0.9.5"
url = "=2.5.8"
humantime = "=2.4.0"
log = "=0.4.34"
twink = { version = "=1.1.3", features = ["log"] }
tokio = { version = "=1.54.1", features = ["rt-multi-thread", "macros", "net", "time"] }
tokio-tungstenite = "=0.26.2"
futures-util = "=0.3.34"
axum = { version = "=0.8.9", default-features = false, features = ["ws", "http1", "tokio"] }
sysinfo = { version = "=0.33.1", default-features = false, features = ["system"] }
tower-http = { version = "=0.6.11", features = ["fs"] }
serde_json = "=1.0.154"
egui = "=0.31.1"
egui_plot = "=0.31.0"
