[package]
name = "serde_partial"
version = "0.3.1"
edition = "2021"
publish = false

[dependencies]
serde = { version = "1.0", default-features = false, features = ["std"] }
serde_derive_internals = "0.26"
syn = "1.0"
quote = "1.0"
proc-macro2 = "1.0"

[dev-dependencies]
serde_json = "1.0"
