[package]
name = "bottle_orm"
version = "0.1.0"
edition = "2021"
publish = false

[dependencies]
heck = "0.5"
sqlx = { version = "0.8", default-features = false, features = ["runtime-tokio", "any", "sqlite"] }
tokio = { version = "1", features = ["rt-multi-thread", "sync"] }
futures = "0.3"
serde = { version = "1", features = ["derive"] }
