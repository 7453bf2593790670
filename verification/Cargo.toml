[package]
name = "onepage"
version = "0.1.0"
edition = "2021"
publish = false

[dependencies]
anyhow = "1"
axum = { version = "0.6", features = ["ws"] }
chrono = "0.4"
clap = "3"
hotwatch = "0.4"
notify = "4"
pulldown-cmark = "0.9"
reqwest = { version = "0.11", default-features = false, features = ["blocking", "rustls-tls"] }
tempfile = "3"
tera = "1"
tokio = { version = "1", features = ["full"] }
tower-http = { version = "0.4", features = ["fs"] }
walkdir = "2"
zip = { version = "0.6", default-features = false, features = ["deflate"] }
