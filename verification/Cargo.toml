[package]
name = "asimov-huggingface-module"
version = "0.0.1"
edition = "2021"
publish = false

[dependencies]
serde = { version = "=1.0.229", features = ["derive"] }
serde_json = "=1.0.154"
ureq = "=2.12.1"
clap = { version = "=4.6.7", features = ["derive"] }
clientele = "=0.3.14"
asimov-module = "=25.0.3"
asimov-env = "=25.0.3"
