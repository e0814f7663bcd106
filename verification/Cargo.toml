[package]
name = "monjolo"
version = "0.1.0"
edition = "2021"
publish = false

[dependencies]
async-opcua = { version = "=0.19.0", features = ["server", "client"] }
inventory = "=0.3.25"
proc-macro2 = { version = "=1.0.107", default-features = false }
quote = { version = "=1.0.47", default-features = false }
rand = { version = "=0.8.8", features = ["small_rng"] }
rand_distr = "=0.4.3"
syn = { version = "=2.0.119", default-features = false, features = ["clone-impls", "full", "parsing", "printing"] }
tokio = { version = "=1.54.1", features = ["macros", "rt", "rt-multi-thread", "sync", "time"] }
toml = "=0.8.23"
