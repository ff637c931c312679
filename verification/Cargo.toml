[package]
name = "dioxus-showcase"
version = "0.1.0"
edition = "2021"
publish = false

[dependencies]
serde = { version = "1", features = ["derive"] }
serde_json = "1"
toml = "0.8"
handlebars = "6"
clap = { version = "4", features = ["derive"] }
syn = { version = "2", features = ["full"] }
proc-macro2 = "1"
quote = "1"
inventory = "0.3"
dioxus = { version = "*", features = ["router"] }
