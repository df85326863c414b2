[package]
name = "xcodeproj"
version = "0.1.0"
edition = "2021"
publish = false

[dependencies]
anyhow = "1"
convert_case = "*"
itertools = "*"
uuid = { version = "1", features = ["v4"] }
