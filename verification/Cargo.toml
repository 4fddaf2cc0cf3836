[package]
name = "xone_tray"
version = "0.1.0"
edition = "2021"
publish = false

[dependencies]
ksni = { version = "=0.3.7", features = ["blocking"] }
ureq = "=2.12.1"
