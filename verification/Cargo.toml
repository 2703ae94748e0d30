[package]
name = "payload_dump_bot"
version = "0.1.0"
edition = "2021"
publish = false

[dependencies]
anyhow = "*"
log = "*"
payload_dumper = "*"
pretty_env_logger = "*"
reqwest = { version = "*", default-features = false, features = ["rustls-tls"] }
serde = { version = "*", features = ["derive"] }
serde_json = "*"
tokio = { version = "*", features = ["macros", "rt-multi-thread", "sync", "time"] }
toml = "*"
zip = { version = "*", default-features = false, features = ["deflate"] }
