[package]
name = "htmlfilter"
version = "0.1.0"
edition = "2021"
publish = false

[dependencies]
clap = { version = "=4.6.7", features = ["derive"] }
html5ever = "=0.25.2"
kuchiki = "=0.8.1"
url = "=2.5.8"
