[package]
name = "fx_strategy"
version = "0.1.0"
edition = "2021"
publish = false

[dependencies]
anyhow = "1"
bincode = "1"
nalgebra = "*"
ort = { version = ">=2.0.0-rc.10", default-features = false, features = ["std", "load-dynamic"] }
rand = "0.8"
rand_distr = "0.4"
serde = { version = "1", features = ["derive"] }
serde_json = "1"
tracing = "0.1"
