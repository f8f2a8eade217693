[package]
name = "swaytab"
version = "0.1.0"
edition = "2021"
publish = false

[dependencies]
clap = { version = "3", features = ["derive"] }
confy = "0.4"
serde = { version = "1", features = ["derive"] }
swayipc = "2"
