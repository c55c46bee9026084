[package]
name = "tcpros"
version = "0.1.0"
edition = "2021"
publish = false

[dependencies]
xml-rs = "*"
serde_xmlrpc = "*"
tokio = { version = "1", features = ["rt-multi-thread", "net", "sync", "io-util", "macros", "time"] }
reqwest = { version = "*", default-features = false }
abort-on-drop = "*"
serde_rosmsg = "*"
serde = { version = "1", features = ["derive"] }
log = "*"
anyhow = "*"
