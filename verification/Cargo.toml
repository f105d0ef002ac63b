[package]
name = "proxima_backend"
version = "0.1.0"
edition = "2021"
publish = false

[dependencies]
chrono = { version = "0.4", features = ["serde"] }
html_parser = "0.7"
rand = "0.9"
string_calculator = "*"
serde = { version = "1", features = ["derive"] }
serde_json = "1"
sha3 = "0.10"
reqwest = "*"
duckduckgo = "*"
tokio = { version = "1", features = ["full"] }
futures = "0.3"
actix-web = "4"
actix-files = "0.6"
openai-api-rs = "*"
openai = "*"
pyo3 = "*"
whoami = "1"
