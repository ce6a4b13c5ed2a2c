[package]
name = "mu_rs"
version = "0.2.0"
edition = "2021"
publish = false

[dependencies]
select = "*"
ureq = { version = "2", default-features = false }
