[package]
name = "arch_reflector"
version = "0.1.0"
edition = "2021"
publish = false

[dependencies]
anyhow = "*"
chrono = { version = "*", features = ["serde"] }
clap = { version = "*", features = ["derive"] }
clap-verbosity-flag = "*"
jiff = "*"
reqwest = { version = "*", default-features = false, features = ["json"] }
serde = { version = "*", features = ["derive"] }
serde_json = "*"
tempdir = "*"
tokio = { version = "*", features = ["rt-multi-thread", "macros", "sync", "process", "time"] }
url = { version = "*", features = ["serde"] }
xdg = "*"
