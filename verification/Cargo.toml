[package]
name = "kaniran-core"
version = "0.1.0"
edition = "2021"
publish = false

[dependencies]
roxmltree = "0.20"
sqlx = { version = "0.8", default-features = false, features = ["postgres", "runtime-tokio"] }
