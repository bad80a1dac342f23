[package]
name = "treefold"
version = "0.1.0"
edition = "2021"
publish = false

[dependencies]
anyhow = "=1.0.104"
thiserror = "=2.0.21"
crossterm = "=0.29.0"
ratatui = "=0.30.2"
iced = { version = "=0.14.0", default-features = false, features = ["tiny-skia", "canvas", "x11", "thread-pool"] }
