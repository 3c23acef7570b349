[package]
name = "grop"
version = "0.1.0"
edition = "2021"
publish = false

[dependencies]
fgrok = "*"
log = "*"
serde = { version = "*", features = ["derive"] }
stderrlog = "*"
structopt = "*"
toml = "*"
