[package]
name = "perfectionist"
version = "0.1.0"
edition = "2021"
publish = false

[dependencies]
clippy_utils = "*"
dylint_linting = "*"
rustc_lexer = "=0.1.0"
serde = { version = "=1.0.229", features = ["derive"] }
