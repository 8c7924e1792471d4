[package]
name = "my_service_bus_shared"
version = "0.1.0"
edition = "2021"
publish = false

[dependencies]
prost = "*"
zip = { version = "*", default-features = false, features = ["deflate"] }
