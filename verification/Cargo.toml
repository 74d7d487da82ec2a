[package]
name = "resym"
version = "0.1.0"
edition = "2021"
publish = false

[dependencies]
pdb-addr2line = "*"
axum = "*"
tokio = { version = "*", features = ["rt-multi-thread", "net", "macros"] }
tower-http = { version = "*", features = ["cors"] }
tracing-subscriber = { version = "*", features = ["env-filter"] }
dotenv = "*"
serde = { version = "*", features = ["derive"] }
thiserror = "*"
