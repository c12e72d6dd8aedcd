[package]
name = "mdbook_classy"
version = "0.1.0"
edition = "2021"
publish = false

[dependencies]
clap = "3"
mdbook = { version = "0.4", default-features = false }
pulldown-cmark = "0.9"
pulldown-cmark-to-cmark = "10"
serde_json = "1"
