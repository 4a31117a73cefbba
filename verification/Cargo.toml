[package]
name = "server_agent"
version = "0.1.0"
edition = "2021"
publish = false

[dependencies]
chrono = "=0.4.45"
clap = { version = "4", features = ["derive"] }
dotenv = "0.15"
env_logger = "0.10"
futures = "0.3"
log = "0.4"
network-interface = "1"
prost = "0.12"
rustls = "0.21"
rustls-pemfile = "=1.0.4"
sysinfo = "0.29"
tokio = { version = "=1.54.1", features = ["full"] }
tokio-rustls = "0.24"
tonic = { version = "=0.10.2", features = ["tls"] }
