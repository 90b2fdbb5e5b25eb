[package]
name = "resolver_core"
version = "0.1.0"
edition = "2021"
publish = false

[dependencies]
anstream = "=0.6.21"
anyhow = "=1.0.104"
clap = { version = "=4.6.7", features = ["derive"] }
configparser = "=3.3.0"
fs-err = "=2.11.0"
futures = "=0.3.34"
itertools = "=0.12.1"
owo-colors = "=4.4.0"
pep440_rs = "*"
petgraph = "=0.6.5"
pubgrub = "*"
serde = { version = "=1.0.229", features = ["derive"] }
toml = "=0.8.23"
tracing = "=0.1.44"
