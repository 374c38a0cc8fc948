[package]
name = "dr_md"
version = "0.1.0"
edition = "2021"
publish = false

[dependencies]
ropey = "1.6"
regex = "1"
url = "2"
urlencoding = "2"
anyhow = "1"
serde = { version = "1", features = ["derive"] }
toml = "0.8"
directories = "5"
tracing = "0.1"
tracing-subscriber = "0.3"
notify = "6"
egui = "0.27"
