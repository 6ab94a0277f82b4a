[package]
name = "marrow"
version = "0.1.0"
edition = "2021"
publish = false

[dependencies]
pulldown-cmark = "0.13"
base64 = "0.22"
serde = { version = "1", features = ["derive"] }
serde_json = "1"
urlencoding = "2"
directories = "*"
arboard = "*"
tao = "*"
wry = "*"
