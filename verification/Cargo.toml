[package]
name = "lethalfixshaders"
version = "0.1.0"
edition = "2021"
publish = false

[dependencies]
anyhow = "*"
anstyle = "*"
clap = { version = "*", features = ["derive"] }
tokio = { version = "*", features = ["full"] }
