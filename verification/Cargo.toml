[package]
name = "faster_all"
version = "0.1.0"
edition = "2021"
publish = false

[dependencies]
anyhow = "*"
csv = "*"
diesel = { version = "*", features = ["postgres"] }
dotenvy = "*"
fasttext = "*"
flate2 = "*"
kdam = "*"
reqwest = { version = "*", default-features = false }
serde = { version = "*", features = ["derive"] }
tokio = { version = "*", features = ["macros", "rt-multi-thread"] }
toml = "*"
