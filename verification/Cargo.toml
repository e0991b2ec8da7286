[package]
name = "portier_client"
version = "0.1.0"
edition = "2021"
publish = false

[dependencies]
anyhow = "*"
reqwest = { version = "*", default-features = false, features = ["blocking", "cookies", "form"] }
reqwest_cookie_store = "*"
