[package]
name = "daytape"
version = "0.1.0"
edition = "2021"
publish = false

[dependencies]
md5 = "0.7"
chrono = "0.4"
clap = { version = "4", features = ["derive"] }
color-eyre = "0.6"
directories = "*"
serde = { version = "1", features = ["derive"] }
serde_yaml = "0.9"
termbuffer = "*"
