[package]
name = "hydradx"
version = "0.1.0"
edition = "2021"
publish = false

[dependencies]
bounded-collections = { version = "=0.3.2", features = ["scale-codec"] }
parity-scale-codec = { version = "=3.7.5", features = ["derive"] }
scale-info = { version = "=2.11.6", features = ["derive"] }
primitive-types = "=0.14.0"
num_enum = "=0.7.6"

[dev-dependencies]
sha3 = "=0.12.0"
