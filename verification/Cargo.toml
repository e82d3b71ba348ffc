[package]
name = "async_pool"
version = "0.1.0"
edition = "2021"
publish = false

[dependencies]
as-slice = "=0.2.1"
critical-section = "=1.2.0"
embassy-sync = "=0.6.2"
portable-atomic = "=1.15.0"
stable_deref_trait = { version = "=1.2.1", default-features = false }

[dev-dependencies]
critical-section = { version = "=1.2.0", features = ["std"] }
