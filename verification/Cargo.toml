[package]
name = "context_profiler"
version = "0.1.0"
edition = "2021"
publish = false

[dependencies]
codex-protocol = "*"
codex-app-server-protocol = "*"
serde = { version = "1", features = ["derive"] }
serde_json = "1"
chrono = "0.4"
tracing = "0.1"
ratatui = "*"
