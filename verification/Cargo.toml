[package]
name = "git_heat"
version = "0.1.0"
edition = "2021"
publish = false

[dependencies]
time = "0.3"
git2 = "*"
clap = { version = "*", features = ["derive"] }
serde_json = "*"
two_timer = "*"
rayon = "*"
