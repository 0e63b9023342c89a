[package]
name = "godot_dl"
version = "0.1.0"
edition = "2021"
publish = false

[dependencies]
scraper = "*"
reqwest = { version = "*", default-features = false, features = ["stream"] }
tokio = { version = "*", features = ["macros", "rt-multi-thread"] }
futures-util = "*"
indicatif = "*"
dialoguer = "*"
log = "*"
simple_logger = "*"
