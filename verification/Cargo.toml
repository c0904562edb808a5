[package]
name = "port_killer"
version = "0.1.0"
edition = "2021"
publish = false

[dependencies]
ratatui = "0.29"
crossterm = "0.28"
sysinfo = "0.33"
nix = { version = "0.29", features = ["signal", "user"] }
color-eyre = "0.6"
