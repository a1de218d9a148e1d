[package]
name = "proptest_stateful"
version = "0.1.0"
edition = "2021"
publish = false

[dependencies]
proptest = { version = "=1.6.0", default-features = false, features = ["std"] }
rand = "0.8"

[dev-dependencies]
rusqlite = "*"
