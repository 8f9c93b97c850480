[package]
name = "tusks"
version = "3.2.1"
edition = "2021"
publish = false

[dependencies]
clap = { version = "=4.6.7", features = ["derive"] }
owo-colors = "=4.4.0"
proc-macro2 = "=1.0.107"
quote = "=1.0.47"
syn = { version = "=2.0.119", features = ["full"] }
tokio = { version = "=1.54.1", features = ["rt-multi-thread", "macros"] }
unicode-ident = "=1.0.27"
unicode-width = "=0.2.3"
