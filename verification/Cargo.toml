[package]
name = "speak_core"
version = "0.1.0"
edition = "2021"
publish = false

[dependencies]
rust-i18n = "3"
