[package]
name = "bcachefs_top"
version = "0.1.0"
edition = "2021"
publish = false

[dependencies]
clap = { version = "4", features = ["derive"] }
nix = { version = "0.30", features = ["fs", "ioctl"] }
ratatui = "0.29"
serde_json = "1"
