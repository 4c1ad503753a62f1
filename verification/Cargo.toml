[package]
name = "dnsfront"
version = "0.1.0"
edition = "2021"
publish = false

[dependencies]
rand = { version = "0.8", features = ["small_rng"] }
tide = "0.16"
tide-rustls = "0.3"
tokio = { version = "1", features = ["macros", "rt-multi-thread"] }
trust-dns-resolver = "0.23"
