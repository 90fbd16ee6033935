[package]
name = "rustems"
version = "0.1.0"
edition = "2021"
publish = false

[dependencies]
uuid = { version = "1", features = ["v4"] }
serde = { version = "1", features = ["derive"] }
serde_json = "1"
rand = "*"
rusb = "0.9"
kira = "*"
hound = "3"
symphonia = "0.5"
rubato = "0.16"
mp3lame-encoder = "*"
tokio = { version = "1", features = ["rt"] }
thiserror = "*"
stem-splitter-core = "*"
