[package]
name = "wdttg"
version = "0.5.0"
edition = "2021"
publish = false

[dependencies]
chrono = "0.4"
lru = "*"
serde = { version = "1", features = ["derive"] }
serde_json = "1"
toml = "*"
dirs = "*"
fs2 = "0.4"
thiserror = "*"
clap = { version = "4", features = ["derive"] }
tokio = { version = "1", features = ["full"] }
rmcp = { version = "*", features = ["server", "transport-io", "macros"] }
schemars = "*"
ratatui = "*"
crossterm = "*"
tui-textarea = "*"
notify = "*"
notify-debouncer-mini = "*"
color-eyre = "*"
tracing-subscriber = "*"

[dev-dependencies]
tempfile = "*"
