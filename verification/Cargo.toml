[package]
name = "oxydized_money"
version = "0.1.0"
edition = "2021"
publish = false

[dependencies]
rust_decimal = "*"
iso_currency = "*"
serde = { version = "*", features = ["derive"] }
