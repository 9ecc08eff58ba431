[package]
name = "rigtether"
version = "0.1.0"
edition = "2021"
publish = false

[dependencies]
serde = "1"
serde_json = { version = "1", features = ["unbounded_depth"] }
serde_stacker = "0.1"
