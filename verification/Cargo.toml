[package]
name = "replicated_log"
version = "0.1.0"
edition = "2021"
publish = false

[dependencies]
actix-web = "=4.18.1"
serde = { version = "=1.0.229", features = ["derive"] }
sha2 = "=0.10.9"
structopt = "=0.3.26"
ureq = { version = "=2.12.1", features = ["json"] }

[dev-dependencies]
serde_json = "=1.0.154"
