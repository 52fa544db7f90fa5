[package]
name = "nominator_settlement"
version = "0.1.0"
edition = "2021"
publish = false

[dependencies]
sp-runtime = "*"
sp-core = "*"
parity-scale-codec = { version = "*", features = ["derive"] }
scale-info = { version = "*", features = ["derive"] }
clap = { version = "*", features = ["derive"] }
futures = "*"
tokio = { version = "*", features = ["macros", "rt-multi-thread"] }
