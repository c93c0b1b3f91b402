[package]
name = "k8s_consul_mutator_rs"
version = "0.1.0"
edition = "2021"
publish = false

[dependencies]
md5 = "=0.8.1"
sha2 = "=0.11.0"
axum = "=0.8.9"
axum-server = { version = "=0.8.0", features = ["tls-rustls"] }
chrono = "=0.4.45"
consulrs = "=0.1.0"
futures = "=0.3.34"
json-patch = "=4.2.0"
k8s-openapi = { version = "=0.27.1", features = ["latest"] }
kube = { version = "=3.1.0", features = ["client", "runtime", "admission"] }
parking_lot = "=0.12.5"
serde_json = "=1.0.151"
tokio = { version = "=1.53.2", features = ["full"] }
tokio-tasker = "=1.2.0"
tower-http = { version = "=0.7.1", features = ["trace"] }
tracing = "=0.1.44"
tracing-subscriber = { version = "=0.3.23", features = ["env-filter"] }
