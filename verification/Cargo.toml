[package]
name = "td3pattern"
version = "0.1.0"
edition = "2021"
publish = false

[dependencies]
argmap = "*"
midir = "*"
