[package]
name = "pear_reviewer"
version = "0.1.0"
edition = "2021"
publish = false

[dependencies]
anyhow = "=1.0.104"
clap = { version = "=4.6.7", features = ["derive", "env"] }
git2 = { version = "=0.21.0", default-features = false }
octocrab = "=0.47.1"
serde = { version = "=1.0.229", features = ["derive"] }
serde_yml = { version = "=0.0.13" }
tokio = { version = "=1.53.2", features = ["macros", "rt-multi-thread", "sync"] }
url = "=2.5.8"
