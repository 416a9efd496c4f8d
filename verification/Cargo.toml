[package]
name = "decision_tables_service"
version = "0.1.0"
edition = "2021"
publish = false

[dependencies]
chrono = "=0.4.45"
calamine = { version = "=0.23.1", features = ["dates"] }
simd-json = "=0.13.11"
jni = "=0.21.1"
