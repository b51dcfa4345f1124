[package]
name = "ityfuzz"
version = "0.1.0"
edition = "2021"
publish = false

[dependencies]
libafl = { version = "=0.11.2", default-features = false, features = ["std"] }
libafl_bolts = { version = "=0.11.2", default-features = false, features = ["std"] }
revm-interpreter = "=1.1.2"
serde = { version = "=1.0.229", features = ["derive"] }
serde_json = "=1.0.154"
tracing = "0.1"

[dev-dependencies]
revm-primitives = "=1.1.2"
