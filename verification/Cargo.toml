[package]
name = "bencher"
version = "0.1.0"
edition = "2021"
publish = false

[dependencies]
uuid = { version = "1", features = ["v4"] }
css-inline = "0.8"
serde = { version = "1", features = ["derive"] }
schemars = "0.8"
thiserror = "1"
