[package]
name = "bfs"
version = "0.1.0"
edition = "2021"
publish = false

[dependencies]
fuser = "*"
libc = "*"
tokio = { version = "*", features = ["full"] }
clap = { version = "*", features = ["derive"] }
config = "*"
serde = { version = "*", features = ["derive"] }
env_logger = "*"
log = "*"
eyre = "*"
async-trait = "*"
aws-config = "*"
aws-sdk-s3 = "*"
