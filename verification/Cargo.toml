[package]
name = "ic_snippets"
version = "0.1.0"
edition = "2021"
publish = false

[dependencies]
candid = "=0.7.18"
ic-cdk = "=0.5.7"
ic-kit = "=0.4.8"
scaled_storage = "=0.1.2"
serde = "=1.0.229"
