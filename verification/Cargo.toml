[package]
name = "subnet_recon"
version = "0.1.0"
edition = "2021"
publish = false

[dependencies]
clap = { version = "4", features = ["derive"] }
hickory-resolver = "0.25"
indicatif = "0.17"
ipnet = "2"
libc = "0.2"
num_cpus = "1"
parking_lot = "0.12"
rand = "0.8"
rayon = "1"
serde = { version = "1", features = ["derive"] }
serde_json = "1"
socket2 = { version = "0.5", features = ["all"] }
thiserror = "1"
tokio = { version = "1", features = ["rt", "net", "time"] }
toml = "0.8"
