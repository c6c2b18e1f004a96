[package]
name = "ryuuji"
version = "0.1.0"
edition = "2021"
publish = false

[dependencies]
serde = { version = "=1.0.229", features = ["derive"] }
toml = "=1.1.8"
jiff = "=0.2.39"
toml_edit = "*"
rusqlite = { version = "*", features = ["bundled"] }
rusqlite_migration = { version = "*", features = ["from-directory"] }
include_dir = "*"
tempfile = "*"
thiserror = "*"
tracing = "*"
directories = "*"
