[package]
name = "hed"
version = "0.1.0"
edition = "2021"
publish = false

[dependencies]
regex = "1"
clap = { version = "3", features = ["derive"] }
color-eyre = "0.6"
faccess = "0.2"
sudo = "0.6"
termion = "1.5"
thiserror = "1"
