[package]
name = "gazetta"
version = "0.1.0"
edition = "2021"
publish = false

[dependencies]
yaml-rust = "=0.4.5"
url = "=2.5.8"
glob = "=0.3.4"
chrono = "=0.4.45"
icu_collator = "=2.4.0"
slug = "=0.1.6"
pulldown-cmark = "=0.13.6"
horrorshow = "=0.8.9"
str_stack = "=0.1.1"
clap = { version = "=4.6.7", features = ["derive"] }
