[package]
name = "st7735"
version = "0.1.0"
edition = "2021"
publish = false

[dependencies]
embedded-hal = "=0.2.7"
embedded-graphics = "=0.6.2"
