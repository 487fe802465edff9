[package]
name = "chain_indexer"
version = "0.1.0"
edition = "2021"
publish = false

[dependencies]
diesel = { version = "2", features = ["sqlite"] }
flume = "*"
governor = "*"
ratatui = "0.29"
thiserror = "*"
throbber-widgets-tui = "0.8"
tokio = { version = "1", features = ["full"] }
tracing = "*"
