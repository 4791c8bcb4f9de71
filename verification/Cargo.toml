[package]
name = "p2p_chat"
version = "0.1.0"
edition = "2021"
publish = false

[dependencies]
vodozemac = "0.9"
libp2p = { version = "0.56", features = ["tokio", "quic", "tcp", "noise", "yamux", "mdns", "identify", "ping", "request-response", "cbor", "macros"] }
tokio = { version = "1", features = ["rt-multi-thread", "macros", "sync", "io-std", "io-util"] }
serde = { version = "1", features = ["derive"] }
rmp-serde = "1"
toml = "0.8"
clap = { version = "4", default-features = false, features = ["std", "derive", "help", "usage", "error-context"] }
crossterm = { version = "0.28", features = ["event-stream"] }
ratatui = { version = "0.29", default-features = false, features = ["crossterm"] }
chrono = { version = "0.4", default-features = false, features = ["clock", "std"] }
anyhow = "1"
futures = "0.3"
tracing = "0.1"
tracing-subscriber = { version = "0.3", default-features = false, features = ["fmt", "std"] }
