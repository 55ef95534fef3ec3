[package]
name = "vasak_contacts"
version = "0.1.0"
edition = "2021"
publish = false

[dependencies]
base64 = "*"
encoding_rs = "*"
roxmltree = "*"
reqwest = { version = "*", default-features = false }
serde = { version = "*", features = ["derive"] }
