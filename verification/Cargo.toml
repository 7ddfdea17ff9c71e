[package]
name = "spacerl"
version = "0.1.0"
edition = "2021"
publish = false

[dependencies]
rand = "0.8"
hecs = "0.10"
rltk = { version = "0.8", default-features = false, features = ["crossterm"] }
log = "0.4"
env_logger = "0.10"
serde = { version = "1", features = ["derive"] }
serde_json = "1"
rand_distr = "0.4"
