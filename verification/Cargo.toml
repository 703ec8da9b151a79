[package]
name = "handy_clipboard"
version = "0.1.0"
edition = "2021"
publish = false

[dependencies]
enigo = "0.6"
log = "0.4"
