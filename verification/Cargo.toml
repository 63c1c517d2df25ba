[package]
name = "androkit"
version = "0.2.0"
edition = "2021"
publish = false

[dependencies]
anyhow = "1"
ctrlc = "*"
directories = "*"
serde = { version = "1", features = ["derive"] }
serde_json = "1"
which = "*"
zip = "*"
