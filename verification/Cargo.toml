[package]
name = "dj_tool"
version = "0.1.0"
edition = "2021"
publish = false

[dependencies]
mp3lame-encoder = "*"
symphonia = "0.5"
rustfft = "6"
walkdir = "2"
tokio = { version = "1", features = ["rt-multi-thread", "macros"] }
pyo3 = { version = "0.23", features = ["experimental-async"] }
numpy = "0.23"
