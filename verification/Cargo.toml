[package]
name = "marscat"
version = "0.1.0"
edition = "2021"
publish = false

[dependencies]
candid = "0.10"
ciborium = "0.2"
hex = "0.4"
hmac = "0.12"
sha2 = "0.10"
ic-cdk = "0.17"
ic-cdk-macros = "0.17"
ic-stable-structures = "0.6"
imagesize = "0.13"
serde = { version = "1", features = ["derive"] }
serde_json = "1"
zip = { version = "2", default-features = false, features = ["deflate"] }
