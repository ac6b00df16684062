[package]
name = "starchart"
version = "0.1.0"
edition = "2021"
publish = false

[dependencies]
url = "=2.5.8"
rand = "=0.8.8"
serde = { version = "=1.0.229", features = ["derive"] }
serde_json = "=1.0.154"
serde_yaml = "=0.9.34"
tokio = { version = "=1.54.1", features = ["rt-multi-thread", "macros", "time", "sync", "fs"] }
reqwest = { version = "=0.11.27", default-features = false, features = ["json", "rustls-tls"] }
actix-web = { version = "=4.18.1", default-features = false, features = ["macros"] }
sqlx = { version = "=0.6.3", default-features = false, features = ["runtime-tokio-rustls", "sqlite"] }
tar = "=0.4.46"
trust-dns-resolver = { version = "=0.22.0", default-features = false, features = ["tokio-runtime"] }
log = "=0.4.34"
config = { version = "0.13", default-features = false, features = ["toml"] }
async-trait = "0.1"
thiserror = "1"
pretty_env_logger = "0.4"
actix-files = "0.6"
