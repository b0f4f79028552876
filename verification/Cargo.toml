[package]
name = "filejail"
version = "0.1.0"
edition = "2021"
publish = false

[dependencies]
base64 = "*"
sanitize-filename = "*"
chrono = "*"
actix-web = { version = "*", features = ["rustls-0_23"] }
actix-files = "*"
tokio = { version = "*", features = ["fs", "io-util", "macros", "rt"] }
tokio-stream = "*"
tera = "*"
clap = { version = "*", features = ["derive"] }
env_logger = "*"
log = "*"
ifcfg = "*"
rcgen = "*"
rustls = "*"
rustls-pemfile = "*"
futures = "*"
futures-util = "*"
serde = { version = "*", features = ["derive"] }
