[package]
name = "webfetch"
version = "0.1.0"
edition = "2021"
publish = false

[dependencies]
url = "=2.5.8"
hyper = { version = "=0.14.32", features = ["client", "http1", "http2", "tcp"] }
hyper-tls = "=0.5.0"
tokio = { version = "=1.53.2", features = ["rt-multi-thread", "macros", "time", "sync"] }
kuchiki = "=0.8.1"
bytes = "=1.12.1"
http = "=0.2.12"
anyhow = "=1.0.104"
ratatui = "=0.28.1"
cssparser = "=0.27.2"
selectors = "=0.22.0"
