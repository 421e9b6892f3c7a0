[package]
name = "nyheter"
version = "0.1.0"
edition = "2021"
publish = false

[dependencies]
rss = "2"
ureq = { version = "2", default-features = false }
