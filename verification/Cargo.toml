[package]
name = "axum_controller_macros"
version = "0.1.0"
edition = "2021"
publish = false

[dependencies]
unicode-ident = "1"
proc-macro2 = "1"
quote = "1"
syn = { version = "2", features = ["full", "extra-traits"] }
axum = { version = "0.8", default-features = false }
