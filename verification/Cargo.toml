[package]
name = "forkd"
version = "0.4.0"
edition = "2021"
publish = false

[dependencies]
anyhow = "1"
axum = "0.7"
axum-server = { version = "0.7", features = ["tls-rustls"] }
clap = { version = "4", features = ["derive", "env"] }
kvm-bindings = { version = "*", features = ["fam-wrappers"] }
kvm-ioctls = "*"
libc = "0.2"
nix = { version = "0.29", features = ["fs", "mman"] }
parking_lot = "0.12"
rand = "0.8"
rustls = { version = "0.23", default-features = false, features = ["ring", "std", "tls12", "logging"] }
serde = { version = "1", features = ["derive"] }
serde_json = "1"
tokio = { version = "1", features = ["full"] }
tracing = "0.1"
tracing-subscriber = { version = "0.3", features = ["env-filter"] }
ureq = "2"
