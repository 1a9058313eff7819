[package]
name = "vad_pipeline"
version = "0.1.0"
edition = "2021"
publish = false

[dependencies]
anyhow = "=1.0.104"
dasp = { version = "=0.11.0", features = ["signal", "interpolate", "interpolate-sinc", "ring_buffer"] }
symphonia = { version = "=0.5.5", features = ["aac", "isomp4"] }
