[package]
name = "codedpedia"
version = "0.1.0"
edition = "2021"
publish = false

[dependencies]
percent-encoding = "*"

[dev-dependencies]
scraper = "*"
