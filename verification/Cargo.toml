[package]
name = "markhtml"
version = "0.1.0"
edition = "2021"
publish = false

[dependencies]
bytes = "1"
pulldown-cmark = { version = "0.9", default-features = false }
serde = { version = "1", features = ["derive"] }
serde_json = "1"
toml = "0.5"
tokio = { version = "1", features = ["net", "rt-multi-thread", "macros", "time", "io-util"] }
tokio-util = { version = "0.7", features = ["codec"] }
tokio-stream = "0.1"
futures = "0.3"
axum = "0.6"
handlebars = { version = "4", features = ["dir_source"] }
log = "0.4"
rustls = "0.19"
actix-web = { version = "4", default-features = false }
mime = "0.3"
