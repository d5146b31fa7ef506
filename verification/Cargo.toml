[package]
name = "bench_stats"
version = "0.1.0"
edition = "2021"
publish = false

[dependencies]
duration-str = "*"
serde = { version = "*", features = ["derive"] }
comfy-table = "*"
