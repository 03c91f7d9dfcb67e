[package]
name = "outside"
version = "0.1.0"
edition = "2021"
publish = false

[dependencies]
stringcase = "*"
url = "2"
httparse = "1"
termsize = "*"
anyhow = "1"
serde = { version = "1", features = ["derive"] }
serde_json = "1"
serde_yaml = "*"
serde_with = "*"
savefile = "*"
savefile-derive = "*"
dirs-next = "2"
cursive = "*"
isahc = "1"
tokio = { version = "1", features = ["rt-multi-thread", "macros", "signal", "time"] }
clap = { version = "4", features = ["derive"] }
cli-settings-derive = "*"
