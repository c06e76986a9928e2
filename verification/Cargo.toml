[package]
name = "stealth_gas"
version = "0.1.0"
edition = "2021"
publish = false

[dependencies]
alloy = { version = "=0.9.2", default-features = false, features = ["std", "serde"] }
clap = { version = "4", default-features = false, features = ["std", "derive", "help", "usage", "error-context"] }
dirs = "5"
eth-stealth-gas-tickets = "=0.1.1"
rand = "0.8"
reqwest = { version = "0.12", default-features = false, features = ["json", "rustls-tls"] }
rpassword = "7"
serde = { version = "1", features = ["derive"] }
serde_json = "1"
tokio = { version = "1", features = ["macros", "rt-multi-thread"] }

[dev-dependencies]
blind-rsa-signatures = "=0.15.1"
hex = "0.4"
