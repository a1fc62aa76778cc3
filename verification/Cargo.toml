[package]
name = "nbtdoc"
version = "0.1.0"
edition = "2021"

[dependencies]
nom = { version = "5", default-features = false, features = ["std"] }
