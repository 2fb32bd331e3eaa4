[package]
name = "agentx-ifstack"
version = "0.0.3"
edition = "2021"
publish = false

[dependencies]
agentx = "=0.1.1"
env_logger = "0.11"
libc = "0.2"
log = "0.4"
netlink-packet-core = "=0.9.0"
netlink-packet-route = "=0.33.0"
netlink-sys = "=0.9.0"
serde = { version = "1", features = ["derive"] }
toml = "=1.1.8"
