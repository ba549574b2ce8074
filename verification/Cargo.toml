[package]
name = "ytdl_core"
version = "0.1.0"
edition = "2021"
publish = false

[dependencies]
tokio = { version = "1", features = ["sync", "rt-multi-thread", "process", "io-util"] }
reqwest = { version = "*", default-features = false, features = ["blocking"] }
image = { version = "*", default-features = false, features = ["jpeg"] }
