[package]
name = "axum_folder_router"
version = "0.3.0"
edition = "2021"
publish = false

[dependencies]
syn = { version = "=2.0.119", features = ["full"] }
regex = "=1.13.1"
proc-macro2 = "=1.0.107"
quote = "=1.0.47"
prettyplease = "=0.2.37"
unicode-ident = "=1.0.27"
