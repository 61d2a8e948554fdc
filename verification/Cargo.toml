[package]
name = "leaderboard"
version = "0.1.0"
edition = "2021"
publish = false

[dependencies]
rocket = { version = "0.5", features = ["json"] }
rocket_dyn_templates = { version = "0.1", features = ["tera"] }
rustbreak = { version = "2", features = ["ron_enc"] }
