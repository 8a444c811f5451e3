[package]
name = "concrete_driver"
version = "0.1.0"
edition = "2021"
publish = false

[dependencies]
anyhow = "1"
ariadne = "0.5"
clap = { version = "4", features = ["derive"] }
git2 = { version = "*", default-features = false }
itertools = "*"
lalrpop-util = { version = "*", default-features = false }
libloading = "*"
owo-colors = "*"
serde = { version = "1", features = ["derive"] }
toml = "*"
tracing = "*"
tracing-subscriber = "*"
