[package]
name = "ov_cli"
version = "0.1.0"
edition = "2021"
publish = false

[dependencies]
unicode-width = "=0.2.2"
serde = { version = "=1.0.229", features = ["derive"] }
serde_json = "=1.0.151"
thiserror = "=2.0.21"
dirs = "=7.0.0"
clap = { version = "=4.6.7", features = ["derive"] }
tokio = { version = "=1.53.2", features = ["macros", "rt-multi-thread"] }
reqwest = { version = "=0.13.5", default-features = false, features = ["json", "query"] }
