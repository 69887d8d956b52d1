[package]
name = "sparqld"
version = "0.1.0"
edition = "2021"
publish = false

[dependencies]
clap = { version = "4", features = ["derive"] }
env_logger = "0.11"
form_urlencoded = "1"
globset = "0.4"
log = "0.4"
notify = "8"
oxhttp = "0.3"
oxigraph = { version = "0.5", default-features = false }
percent-encoding = "2"
serde_json = "1"
serde-saphyr = "*"
