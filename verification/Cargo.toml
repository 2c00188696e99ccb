[package]
name = "termine"
version = "3.1.0"
edition = "2021"
publish = false

[dependencies]
minefield = "=3.3.0"
mvc-rs = "=3.3.0"
termioff = "=0.1.0"
termion = "=1.5.6"
