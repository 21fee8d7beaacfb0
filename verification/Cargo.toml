[package]
name = "rip"
version = "0.1.0"
edition = "2021"
publish = false

[dependencies]
clap = { version = "*", features = ["derive"] }
colored = "*"
crossterm = "*"
inquire = "*"
listeners = "*"
nix = { version = "*", features = ["signal"] }
ratatui = "*"
sysinfo = "*"
terminal_size = "*"
