[package]
name = "rmus"
version = "0.1.0"
edition = "2021"
publish = false

[dependencies]
anyhow = "1"
claxon = "0.4"
dotenv = "0.15"
env_logger = "0.10"
log = "0.4"
rodio = "0.14"
termion = "1.5"
tui = { version = "0.19", default-features = false, features = ["termion"] }
