[package]
name = "loadymcloadface"
version = "0.1.0"
edition = "2021"
publish = false

[dependencies]
reqwest = { version = "0.12", default-features = false, features = ["blocking", "rustls-tls"] }
chrono = { version = "0.4", features = ["serde"] }
serde = { version = "1", features = ["derive"] }
crossbeam = "0.8"
ctrlc = "3"
dotenv = "0.15"
log = "0.4"
libc = "0.2"
config = { version = "0.14", default-features = false, features = ["toml"] }
tokio = { version = "1", features = ["rt-multi-thread", "time"] }
futures = "0.3"
rand = "0.9"
async-channel = "2"
