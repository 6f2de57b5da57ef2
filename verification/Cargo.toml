[package]
name = "meowpdf"
version = "1.2.2"
edition = "2021"
publish = false

[dependencies]
base64 = "0.22"
crossbeam-channel = "*"
crossterm = "*"
keybinds = { version = "*", features = ["crossterm"] }
open = "*"
png = "*"
