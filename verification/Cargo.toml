[package]
name = "volki_web"
version = "0.1.0"
edition = "2021"
publish = false
