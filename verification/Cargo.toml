[package]
name = "k8s_ldap_auth"
version = "0.2.0"
edition = "2021"
publish = false

[dependencies]
anyhow = "=1.0.104"
async-trait = "=0.1.92"
base64 = "=0.22.1"
chrono = "=0.4.45"
clap = { version = "=4.6.7", features = ["env"] }
dotenvy = "=0.15.7"
k8s-openapi = { version = "=0.29.0", features = ["v1_35"] }
ldap3 = "=0.12.1"
native-tls = "=0.2.18"
rustls-pki-types = { version = "=1.15.1", features = ["std"] }
serde_json = "=1.0.154"
tokio = { version = "=1.54.1", features = ["full"] }
tokio-rustls = "=0.26.6"
tokio-util = { version = "=0.7.20", features = ["rt"] }
tracing = "=0.1.44"
tracing-subscriber = { version = "=0.3.23", features = ["env-filter"] }
