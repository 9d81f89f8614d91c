[package]
name = "pypackage"
version = "0.1.0"
edition = "2021"
publish = false

[dependencies]
regex = "1"
serde = { version = "1", features = ["derive"] }
serde_json = "1"
toml = "0.5"
structopt = "0.3"
crossterm = "0.27"
