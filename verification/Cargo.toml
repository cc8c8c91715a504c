[package]
name = "emily"
version = "0.1.0"
edition = "2021"
publish = false

[dependencies]
shakmaty = "0.27"
chrono = "0.4"
tokio = { version = "1", features = ["rt", "macros", "process", "io-util", "fs", "time", "sync"] }
futures = "0.3"
async-trait = "0.1"
color-eyre = "0.6"
serde = { version = "1", features = ["derive"] }
structopt = "0.3"
toml = "0.8"
tracing = "0.1"
tracing-error = "0.2"
tracing-subscriber = { version = "0.3", features = ["env-filter"] }
derivative = "2"
