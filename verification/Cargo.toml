[package]
name = "panic_decoder"
version = "0.1.0"
edition = "2021"
publish = false

[dependencies]
anyhow = "*"
cairo-lang-sierra = "*"
cairo-vm = "*"
camino = "*"
clap = { version = "*", features = ["derive"] }
dunce = "*"
handlebars = "*"
reqwest = { version = "*", default-features = false, features = ["blocking", "json"] }
scarb-metadata = "*"
scarb-ui = "*"
serde = { version = "*", features = ["derive"] }
serde_json = "*"

[dev-dependencies]
cairo-lang-utils = "*"
