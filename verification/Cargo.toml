[package]
name = "route_policy_cmp"
version = "0.1.0"
edition = "2021"
publish = false

[dependencies]
dashmap = "*"
anyhow = "*"
log = "*"
env_logger = "*"
encoding_rs = "*"
encoding_rs_io = "*"
serde = { version = "*", features = ["derive"] }
serde_with = "*"
