[package]
name = "semigroup"
version = "0.1.0"
edition = "2021"
publish = false

[dependencies]
rand = "0.9"
num = "0.4"
serde = { version = "1", features = ["derive"] }
clap = { version = "4", features = ["derive"] }
