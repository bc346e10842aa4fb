[package]
name = "lazydot"
version = "0.4.0"
edition = "2021"
publish = false

[dependencies]
toml_edit = "0.22"
toml = "0.8"
serde = { version = "1", features = ["derive"] }
clap = { version = "4", features = ["derive"] }
clap_complete = "4"
dialoguer = "0.11"
ansi_term = "0.12"

[dev-dependencies]
tempfile = "3"
