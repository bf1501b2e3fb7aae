[package]
name = "epifetch"
version = "0.1.0"
edition = "2021"
publish = false

[dependencies]
anyhow = "*"
clap = { version = "*", features = ["derive"] }
log = "*"
portpicker = "*"
serde_json = "*"
thirtyfour = "*"
tokio = { version = "*", features = ["rt-multi-thread", "macros", "fs", "time"] }
zip-extensions = "*"
