[package]
name = "centrale"
version = "0.1.0"
edition = "2021"
publish = false

[dependencies]
actix-web = { version = "4", features = ["openssl"] }
actix-http = "3"
actix-rt = "2"
actix-cors = "0.7"
actix-files = "0.6"
actix-governor = "*"
argon2 = "0.5"
chrono = "0.4"
dotenvy = "0.15"
env_logger = "0.11"
log = "0.4"
openssl = "0.10"
r2d2 = "0.8"
r2d2_sqlite = "*"
rand = "0.8"
reqwest = "0.12"
serde = { version = "1", features = ["derive"] }
serde_json = "1"
sha2 = "0.10"
thiserror = "2"
tokio = { version = "1", features = ["sync"] }
url = "2"
