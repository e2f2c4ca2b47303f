[package]
name = "league_motd"
version = "0.1.0"
edition = "2021"
publish = false

[dependencies]
encoding = "0.2"
redis = { version = "*", default-features = false }
clap = "2"
