[package]
name = "login_server"
version = "0.1.0"
edition = "2021"
publish = false

[dependencies]
anyhow = "1"
clap = { version = "4", features = ["derive"] }
env_logger = "0.10"
ipnetwork = { version = "0.20", default-features = false }
itertools = "0.10"
log = "0.4"
mlua = { version = "0.9", features = ["luajit", "vendored"] }
mysql_async = { version = "0.32", default-features = false, features = ["minimal"] }
spdlog-rs = { version = "0.3", features = ["multi-thread"] }
thiserror = "1"
tokio = { version = "1", features = ["full"] }
