[package]
name = "felloe"
version = "0.1.0"
edition = "2021"
publish = false

[dependencies]
sha2 = "*"
reqwest = { version = "*", default-features = false, features = ["blocking", "json"] }
serde = { version = "*", features = ["derive"] }
serde_derive = "*"
flate2 = "*"
tar = "*"
crossterm = "*"
dirs = "*"
indicatif = "*"
log = "*"
env_logger = "*"
structopt = "*"
