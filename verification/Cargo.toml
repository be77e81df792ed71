[package]
name = "kanata_appvk"
version = "0.1.0"
edition = "2021"
publish = false

[dependencies]
serde_json = "1"
clap = { version = "4", features = ["derive"] }
log = "0.4"
simplelog = "0.12"
tokio = { version = "1", features = ["macros", "rt-multi-thread", "sync"] }
objc2 = "0.5"
objc2-app-kit = "0.2"
objc2-foundation = "0.2"
block2 = "0.5"
core-foundation = "0.10"
