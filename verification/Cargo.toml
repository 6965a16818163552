[package]
name = "binding_model"
version = "0.1.0"
edition = "2021"
publish = false

[dependencies]
arrayvec = "*"
serde = { version = "1", features = ["derive"] }
