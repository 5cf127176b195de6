[package]
name = "clwm"
version = "0.1.0"
edition = "2021"
publish = false

[dependencies]
diffy = "*"
anyhow = "*"
async-recursion = "*"
async-trait = "*"
chrono = { version = "*", features = ["serde"] }
clap = { version = "*", features = ["derive"] }
edit = "*"
futures = "*"
rmp-serde = "*"
serde = { version = "*", features = ["derive"] }
sqlx = { version = "*", features = ["sqlite", "runtime-tokio"], default-features = false }
thiserror = "*"
tokio = { version = "*", features = ["macros", "rt-multi-thread", "sync"] }
toml = "*"
