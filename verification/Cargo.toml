[package]
name = "rssreader"
version = "0.1.0"
edition = "2021"
publish = false

[dependencies]
rss = "2"
chrono = { version = "0.4", features = ["serde"] }
serde = { version = "=1.0.229", features = ["derive"] }
serde_json = "=1.0.154"
futures = "0.3"
actix = "0.13"
actix-web = "4"
actix-cors = "0.7"
reqwest = { version = "0.12", features = ["blocking"] }
listenfd = "=0.3.5"
log = "=0.4.35"
env_logger = "=0.6.2"
wasm-bindgen = "=0.2.130"
wasm-bindgen-futures = "0.4"
js-sys = "=0.3.107"
web-sys = { version = "=0.3.107", features = ["Window", "Storage", "Response"] }
