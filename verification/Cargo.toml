[package]
name = "audio_visualizer_rs"
version = "0.4.0"
edition = "2021"
publish = false

[dependencies]
symphonia = { version = "0.5", features = ["all"] }
rmcp = { version = "*", features = ["server", "macros", "transport-io"] }
serde = { version = "1", features = ["derive"] }
tokio = { version = "1", features = ["macros", "rt-multi-thread", "io-std"] }
tracing = "0.1"
tracing-subscriber = { version = "0.3", features = ["env-filter"] }
