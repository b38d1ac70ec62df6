[package]
name = "sponsor_sync"
version = "0.1.0"
edition = "2021"
publish = false

[dependencies]
url = "*"
clap = "*"
env_logger = "*"
futures-util = "*"
log = "*"
reqwest = { version = "*", default-features = false, features = ["stream", "rustls-tls"] }
sqlx = { version = "*", default-features = false, features = ["postgres", "runtime-tokio"] }
tokio = { version = "*", features = ["rt-multi-thread", "macros"] }
