[package]
name = "robotlb"
version = "0.1.0"
edition = "2021"
publish = false

[dependencies]
clap = { version = "=4.6.7", features = ["derive", "env"] }
dotenvy = "=0.15.7"
futures = "=0.3.34"
hcloud = "=0.21.0"
k8s-openapi = { version = "=0.27.1", features = ["latest"] }
kube = { version = "=3.1.0", features = ["runtime"] }
thiserror = "=2.0.21"
tikv-jemallocator = "=0.7.0"
tokio = { version = "=1.54.1", features = ["full"] }
tracing = "=0.1.44"
tracing-subscriber = "=0.3.23"
