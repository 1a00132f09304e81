[package]
name = "tms"
version = "0.1.0"
edition = "2021"
publish = false

[dependencies]
aho-corasick = "=1.1.5"
clap = { version = "=4.6.7", features = ["derive"] }
config = "=0.15.27"
crossterm = "=0.29.0"
dirs = "=7.0.0"
gix = "=0.88.0"
nucleo = "=0.5.0"
ratatui = "=0.30.2"
serde = { version = "=1.0.229", features = ["derive"] }
serde_derive = "=1.0.229"
shellexpand = "=3.1.2"
toml = "=1.1.6"
