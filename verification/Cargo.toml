[package]
name = "mononoke"
version = "0.1.0"
edition = "2021"
publish = false

[dependencies]
anyhow = "1.0"
bytes = "0.5"
clap = "2.33"
futures = { version = "0.3", features = ["compat"] }
git2 = { version = "0.13", default-features = false }
once_cell = "1.3"
rand = "0.7"
slog = "2.5"
tokio = { version = "0.2", features = ["full"] }
tokio-compat = "0.1"
tokio-timer = "0.2"
tokio-util = { version = "0.3", features = ["codec"] }
