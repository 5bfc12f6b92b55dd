[package]
name = "absence_notify"
version = "0.1.0"
edition = "2021"
publish = false

[dependencies]
uuid = "*"
chrono = "*"
tokio = { version = "*", features = ["full"] }
actix-web = "*"
reqwest = { version = "*", features = ["json"] }
fcm_v1 = "*"
graphql_client = "*"
dotenvy = "*"
lazy_static = "*"
serde = { version = "*", features = ["derive"] }
