[package]
name = "redis_lua"
version = "0.1.0"
edition = "2021"
publish = false

[dependencies]
regex = "=1.13.1"
rmp = "=0.8.15"
redis = { version = "=1.8.0", default-features = false, features = ["script", "tokio-comp"] }
full_moon = "=2.2.0"
selene-lib = "=0.31.0"
toml = "=0.7.8"
serde = "=1.0.229"
proc-macro2 = { version = "=1.0.107", features = ["span-locations"] }
quote = "=1.0.47"
proc-macro-error = "=1.0.4"
