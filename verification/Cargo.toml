[package]
name = "m1_doc"
version = "0.1.0"
edition = "2021"
publish = false

[dependencies]
clap = { version = "4.6.7", features = ["derive"] }
pulldown-cmark = "0.13.6"
