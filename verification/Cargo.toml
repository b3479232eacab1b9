[package]
name = "cata"
version = "0.1.0"
edition = "2021"
publish = false

[dependencies]
async-trait = "0.1"
clap = { version = "4", features = ["derive"] }
eyre = "0.6"
futures = "0.3"
machine-uid = "=0.6.0"
mime_guess = "=2.0.5"
posthog-rs = { version = "=0.27.0", default-features = false }
ring = "=0.17.14"
serde = { version = "1", features = ["derive"] }
serde_json = "1"
serde_path_to_error = "0.1"
serde_yaml = "0.9"
tabled = "=0.22.0"
tokio = { version = "1", features = ["rt-multi-thread"] }
tracing = "0.1"
tracing-core = "0.1"
tracing-subscriber = "0.3"
