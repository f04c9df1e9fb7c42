[package]
name = "teleconsole"
version = "0.1.0"
edition = "2021"
publish = false

[dependencies]
async-trait = "=0.1.92"
chrono = "=0.4.45"
clap = { version = "=3.2.25", features = ["derive"] }
crossterm = "=0.25.0"
dirs = "=4.0.0"
dptree = "=0.3.0"
futures = "=0.3.34"
grammers-client = "=0.10.0"
grammers-session = "=0.10.0"
grammers-tl-types = "=0.10.0"
thiserror = "=1.0.69"
tokio = { version = "=1.54.1", features = ["sync", "rt", "rt-multi-thread", "macros"] }
tui = "=0.19.0"
