[package]
name = "zonefile"
version = "0.1.0"
edition = "2021"
publish = false

[dependencies]
kube = { version = "=4.2.0", default-features = false, features = ["derive"] }
k8s-openapi = { version = "=0.28.0", features = ["latest"] }
schemars = "=1.2.2"
serde = { version = "=1.0.229", features = ["derive"] }
serde_json = "*"
