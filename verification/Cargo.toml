[package]
name = "arcaxh_translator"
version = "0.1.0"
edition = "2021"
publish = false

[dependencies]
lazy_static = "1"
pyo3 = "0.20"
serde = { version = "1", features = ["derive"] }
