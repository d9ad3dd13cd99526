[package]
name = "laddertypes"
version = "0.1.0"
edition = "2021"
publish = false

[dependencies]
tiny-ansi = "=0.1.0"
