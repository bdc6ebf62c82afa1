[package]
name = "miratope_lang"
version = "0.1.0"
edition = "2021"
publish = false

[dependencies]
itertools = "0.10"
nalgebra = { version = "0.27", features = ["serde-serialize"] }
ron = "0.6"
serde = { version = "1", features = ["derive"] }
