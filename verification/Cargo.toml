[package]
name = "sap_core"
version = "0.1.0"
edition = "2021"
publish = false

[dependencies]
actix-multipart = "*"
actix-web = "*"
bollard = "*"
chrono = "*"
dotenv = "*"
env_logger = "*"
envy = "*"
futures = "*"
humantime = "*"
log = "*"
serde = { version = "*", features = ["derive"] }
sha3 = "*"
sysinfo = "*"
tokio = { version = "*", features = ["full"] }
uuid = { version = "*", features = ["v4"] }
