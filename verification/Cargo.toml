[package]
name = "dune"
version = "0.1.0"
edition = "2021"
publish = false

[dependencies]
rand = "=0.8.8"
serde = { version = "=1.0.229", features = ["derive"] }
bincode = "=1.3.3"
renet = "=0.0.9"
dotenv = "=0.15.0"
thiserror = "=1.0.69"
ron = "0.8"
