[package]
name = "scheduler"
version = "0.1.0"
edition = "2021"
publish = false

[dependencies]
chrono = { version = "=0.4.45", features = ["serde"] }
chronoutil = "=0.2.7"
clap = { version = "=3.2.25", features = ["derive"] }
dotenv = "=0.15.0"
env_logger = "=0.9.3"
itertools = "=0.10.5"
lockfree = "=0.5.1"
log = "=0.4.34"
serde = { version = "=1.0.229", features = ["derive"] }
serde_json = "=1.0.154"
serenity = { version = "=0.11.7", features = ["collector"] }
tokio = { version = "=1.54.1", features = ["macros", "rt-multi-thread"] }
