[package]
name = "sitegen"
version = "0.1.0"
edition = "2021"
publish = false

[dependencies]
heck = "=0.5.0"
pulldown-cmark = { version = "=0.13.4", default-features = false, features = ["html"] }
tera = { version = "=2.4.0", default-features = false }
walkdir = "=2.5.0"
