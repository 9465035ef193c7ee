[package]
name = "route_codegen"
version = "0.1.0"
edition = "2021"
publish = false

[dependencies]
syn = { version = "2", features = ["full"] }
globset = "0.4"
toml = "0.8"
rayon = "1"
