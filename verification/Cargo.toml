[package]
name = "snowmelt"
version = "0.11.0"
edition = "2021"
publish = false

[dependencies]
anyhow = "=1.0.104"
thiserror = "=2.0.21"
clap = { version = "=4.6.7", features = ["derive"] }
ndarray = { version = "=0.16.1", features = ["rayon"] }
surtgis-algorithms = "=1.6.0"
surtgis-core = "=1.6.0"
pyo3 = "0.30"
numpy = "0.30"
