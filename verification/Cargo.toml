[package]
name = "token_sale"
version = "0.1.0"
edition = "2021"
publish = false

[dependencies]
candid = "*"
hex = "*"
ic-cdk = "*"
ic-cdk-macros = "*"
serde = "*"
serde_bytes = "*"
sha2 = "*"
