[package]
name = "chaum_pedersen"
version = "0.1.0"
edition = "2021"
publish = false

[dependencies]
num-bigint = { version = "0.4", features = ["rand"] }
rand = "0.8"
tokio = { version = "1", features = ["macros", "rt-multi-thread"] }
tonic = "0.9"
prost = "0.11"

[dev-dependencies]
hex = "0.4"
