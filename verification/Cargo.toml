[package]
name = "promethee"
version = "0.1.0"
edition = "2021"
publish = false

[dependencies]
calamine = "*"
tabled = "*"
serde = { version = "*", features = ["derive"] }
