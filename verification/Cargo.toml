[package]
name = "arango_etl"
version = "0.1.0"
edition = "2021"
publish = false

[dependencies]
angry-purple-tiger = "=1.0.0"
anyhow = "=1.0.104"
arangors = "=0.5.5"
base64 = "=0.21.7"
chrono = { version = "=0.4.45", features = ["serde"] }
clap = { version = "=4.6.7", features = ["derive"] }
config = { version = "=0.13.4", default-features = false, features = ["toml"] }
deadpool-redis = "0.14"
futures = "=0.3.34"
geojson = "=0.24.2"
h3o = { version = "=0.3.5", features = ["geo"] }
helium-crypto = "=0.11.0"
rust_decimal = "=1.43.0"
serde = { version = "=1.0.229", features = ["derive"] }
serde_json = "=1.0.154"
thiserror = "=1.0.69"
tokio = { version = "=1.54.1", features = ["macros", "rt-multi-thread", "sync", "time"] }
tokio-graceful-shutdown = "=0.13.0"
tracing = "=0.1.44"
tracing-subscriber = { version = "=0.3.23", features = ["env-filter"] }
