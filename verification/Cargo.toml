[package]
name = "payment_engine"
version = "0.1.0"
edition = "2021"
publish = false

[dependencies]
rust_decimal = "*"
serde = { version = "*", features = ["derive"] }
csv = "*"
structopt = "*"
tokio = { version = "*", features = ["macros", "rt-multi-thread"] }
