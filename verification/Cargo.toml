[package]
name = "navigator"
version = "0.1.0"
edition = "2021"
publish = false

[dependencies]
regex = "1"
clap = "2"
serde = { version = "1", features = ["derive"] }
toml = "0.5"
termion = "1.5"
tui = { version = "0.19", default-features = false, features = ["termion"] }
