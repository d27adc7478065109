[package]
name = "faq_book"
version = "0.1.0"
edition = "2021"
publish = false

[dependencies]
pulldown-cmark = "=0.13.4"
pulldown-cmark-to-cmark = "=23.0.0"
mdbook = { version = "=0.4.52", default-features = false }
clap = "=2.34.0"
env_logger = "=0.11.11"
serde_json = "=1.0.151"
