[package]
name = "commit_report"
version = "0.1.0"
edition = "2021"
publish = false

[dependencies]
chrono = { version = "0.4", default-features = false, features = ["std"] }
serde_json = "1"
git2 = { version = "*", default-features = false }
structopt = { version = "0.3", features = ["paw"] }
paw = "1"
