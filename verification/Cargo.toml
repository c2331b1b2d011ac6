[package]
name = "postal_lookup"
version = "0.1.0"
edition = "2021"
publish = false

[dependencies]
actix-web = "*"
tokio = { version = "*", features = ["rt"] }
rayon = "*"
num_cpus = "*"
