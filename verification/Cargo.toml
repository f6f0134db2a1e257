[package]
name = "game_catalog"
version = "0.1.0"
edition = "2021"
publish = false

[dependencies]
serde_json = "1"
regex = "1"
ureq = "2"
urlencoding = "2"
opener = "*"
