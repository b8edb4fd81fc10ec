[package]
name = "serverless"
version = "0.1.0"
edition = "2021"
publish = false

[dependencies]
actix-web = { version = "4", default-features = false, features = ["macros"] }
anyhow = "1"
clap = { version = "4", features = ["derive"] }
data-encoding = "2"
ethers = { version = "2", default-features = false }
filetime = "0.2"
hex = "0.4"
k256 = "0.13"
log = "0.4"
rand = "0.8"
reqwest = { version = "0.11", default-features = false, features = ["json"] }
serde = { version = "1", features = ["derive"] }
serde_json = "1"
thiserror = "1"
tiny-keccak = { version = "2", features = ["keccak"] }
tokio = { version = "1", features = ["full"] }
