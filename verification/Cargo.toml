[package]
name = "cluster_sync"
version = "0.1.0"
edition = "2021"
publish = false

[dependencies]
anyhow = "=1.0.104"
k8s-openapi = { version = "=0.17.0", default-features = false, features = ["v1_22"] }
kube = { version = "=0.80.0", default-features = false, features = ["client"] }
kubectl-view-allocations = { version = "=0.16.3", default-features = false }
serde = { version = "=1.0.229", features = ["derive"] }
tokio = { version = "=1.54.1", features = ["macros", "rt", "sync"] }
