[package]
name = "ordering_regret"
version = "0.1.0"
edition = "2021"
publish = false

[dependencies]
csv = "*"
hex = "*"
serde = { version = "*", features = ["derive"] }
sha2 = "*"
thiserror = "*"
