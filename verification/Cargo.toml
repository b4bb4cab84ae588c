[package]
name = "editoast"
version = "0.1.0"
edition = "2021"
publish = false

[dependencies]
osm4routing = "=0.5.9"
geojson = "=0.24.2"
serde = { version = "=1.0.229", features = ["derive"] }
serde_json = "=1.0.154"
log = "=0.4.34"
env_logger = "=0.11.11"
chrono = "=0.4.45"
syn = { version = "=2.0.119", features = ["full", "extra-traits"] }
quote = "=1.0.47"
proc-macro2 = "=1.0.107"
darling = "=0.20.11"
