[package]
name = "wtf"
version = "0.1.0"
edition = "2021"
publish = false

[dependencies]
strsim = "*"
dirs = "*"
serde = { version = "*", features = ["derive"] }
serde_json = "*"
clap = { version = "*", features = ["derive"] }
colored = "*"
reqwest = { version = "*", default-features = false, features = ["json", "rustls-tls"] }
tokio = { version = "*", features = ["rt", "macros"] }
