[package]
name = "resource_usage_sdk"
version = "0.1.0"
edition = "2021"
publish = false

[dependencies]
comfy-table = "=7.2.2"
futures = "=0.3.34"
hex = "=0.4.3"
soroban-client = "=0.6.0"
stellar-strkey = "=0.0.15"
thiserror = "=2.0.21"
tokio = { version = "=1.54.1", features = ["macros", "rt-multi-thread"] }
