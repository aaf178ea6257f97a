[package]
name = "portkube"
version = "0.1.0"
edition = "2021"
publish = false

[dependencies]
anyhow = "1"
arboard = { version = "3", default-features = false }
crossterm = "0.28"
k8s-openapi = { version = "0.24", features = ["latest"] }
kube = { version = "0.98", default-features = false, features = ["client", "config", "rustls-tls", "ws"] }
libc = "0.2"
nix = { version = "0.29", features = ["user"] }
open = "5"
ratatui = "0.29"
serde_json = "1"
tokio = { version = "1", features = ["full"] }
tracing = "0.1"
