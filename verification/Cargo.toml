[package]
name = "lanscan"
version = "0.1.0"
edition = "2021"
publish = false

[dependencies]
csv = "*"
pnet = "*"
clap = { version = "*", features = ["derive"] }
tabled = "*"
tokio = { version = "*", features = ["macros", "rt-multi-thread"] }
