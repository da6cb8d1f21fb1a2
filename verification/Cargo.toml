[package]
name = "ebnf"
version = "0.1.0"
edition = "2021"
publish = false

[dependencies]
parse-hyperlinks = "=0.29.3"
serde = { version = "=1.0.229", features = ["derive"] }

[dev-dependencies]
nom = "=7.1.3"
