[package]
name = "rune"
version = "0.1.0"
edition = "2021"
publish = false

[dependencies]
url = "2"
curl = "0.4"
fatfs = "0.3"
getopts = "0.2"
indicatif = "0.17"
serde = "1"
serde_derive = "1"
serde_json = "1"
