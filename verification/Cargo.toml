[package]
name = "ic-token"
version = "0.1.0"
edition = "2021"
publish = false

[dependencies]
candid = "=0.7.18"
ic-cdk = "=0.5.7"
ic-cdk-macros = "=0.5.7"
ic-kit = "=0.4.8"
serde = { version = "=1.0.229", features = ["derive"] }
