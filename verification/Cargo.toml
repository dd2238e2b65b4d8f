[package]
name = "dvadva"
version = "0.1.0"
edition = "2021"
publish = false

[dependencies]
regex = "=1.13.1"
globset = "=0.4.21"
ignore = "=0.4.34"
md5 = "=0.7.0"
rand = "=0.9.5"
uuid = { version = "=1.29.0", features = ["v4"] }
similar = "=2.7.0"
serde = { version = "=1.0.229", features = ["derive"] }
serde_json = "=1.0.154"
toml = "=0.9.12"
tokio = { version = "=1.54.1", features = ["full"] }
reqwest = { version = "=0.12.28", default-features = false, features = ["json", "stream"] }
clap = { version = "=4.6.7", features = ["derive"] }
dirs = "=6.0.0"
chrono = "=0.4.45"
sysinfo = "=0.33.1"
ratatui = "=0.29.0"
crossterm = "=0.28.1"
egui = { version = "=0.33.3", default-features = false, features = ["default_fonts"] }
egui_commonmark = { version = "=0.22.0", default-features = false }
bytes = "=1.12.1"
futures = "=0.3.34"
anyhow = "=1.0.104"
async-trait = "=0.1.92"
schemars = "=1.2.3"
tracing = "=0.1.44"

[dev-dependencies]
tempfile = "=3.27.0"
