[package]
name = "inmemory_cluster"
version = "0.1.0"
edition = "2021"
publish = false

[dependencies]
chrono = "0.4"
log = "0.4"
actix-web = "4"
actix-cors = "0.7"
serde = { version = "1", features = ["derive"] }
serde_json = "1"
tera = "1"
tokio = { version = "1", features = ["macros", "rt-multi-thread"] }
rand = "0.8"
gethostname = "*"
signal-hook = "0.3"
kube = "*"
k8s-openapi = { version = "*", features = ["latest"] }
