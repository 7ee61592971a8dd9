[package]
name = "rdpterm"
version = "0.1.0"
edition = "2021"
publish = false

[dependencies]
alacritty_terminal = "0.25"
anyhow = "1"
clap = { version = "4.5", features = ["derive", "env"] }
cosmic-text = "0.14"
image = { version = "0.25", default-features = false, features = ["png"] }
libc = "0.2"
portable-pty = "0.9"
skrifa = "0.37"
swash = "0.2"
tokio = { version = "1", features = ["full"] }
tracing = "0.1"
tracing-subscriber = { version = "0.3", features = ["env-filter"] }
