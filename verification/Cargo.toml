[package]
name = "dipc"
version = "0.1.0"
edition = "2021"
publish = false

[dependencies]
clap = { version = "4", features = ["derive"] }
deltae = "0.3"
image = "0.24"
indicatif = { version = "0.17", features = ["rayon"] }
lab = "0.11"
owo-colors = { version = "4", features = ["supports-colors"] }
ratatui = "0.29"
rayon = "1"
serde_json = { version = "1", features = ["preserve_order"] }
supports-color = "3"
