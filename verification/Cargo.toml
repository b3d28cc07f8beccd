[package]
name = "epiq"
version = "0.1.0"
edition = "2021"
publish = false

[dependencies]
anyhow = "=1.0.104"
chrono = "=0.4.45"
clap = { version = "=4.6.7", features = ["derive"] }
crossterm = { version = "=0.28.1", features = ["event-stream", "use-dev-tty", "libc"] }
futures = "=0.3.34"
promkit = "=0.8.0"
shlex = "=2.0.1"
strip-ansi-escapes = "=0.2.1"
tokio = { version = "=1.53.2", features = ["full"] }
