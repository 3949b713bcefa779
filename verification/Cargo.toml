[package]
name = "pivagen"
version = "0.1.0"
edition = "2021"
publish = false

[dependencies]
rand = "=0.8.8"
serde = { version = "=1.0.229", features = ["derive"] }
serde_json = "=1.0.154"
tokio = { version = "=1.54.1", features = ["rt", "macros", "net", "io-util", "io-std"] }
async-trait = "=0.1.92"
lazy_static = "=1.5.1"
reqwest = "=0.11.27"
teloxide = { version = "=0.10.1", features = ["auto-send"] }
takecell = "=0.1.1"
thiserror = "=1.0.69"
tokio-postgres = "=0.7.18"
postgres-derive = "=0.4.9"
postgres-types = "=0.2.14"
ureq = "=2.12.1"
