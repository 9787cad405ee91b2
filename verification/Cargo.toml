[package]
name = "rc_voting"
version = "0.1.0"
edition = "2021"
publish = false

[dependencies]
ring = "0.17"
rand_core = { version = "0.6", features = ["getrandom"] }
hex = "0.4"
anyhow = "1"
axum = "0.7"
axum-extra = { version = "0.9", features = ["cookie"] }
cookie = "0.18"
http = "1"
tokio = { version = "1", features = ["full"] }
serde = { version = "1", features = ["derive"] }
diesel = { version = "2", features = ["sqlite", "r2d2"] }
diesel_migrations = "2"
r2d2 = "0.8"
dotenvy = "0.15"
uuid = { version = "1", features = ["v4"] }
log = "0.4"
tower = "0.4"
tower-http = { version = "0.5", features = ["compression-full", "fs"] }
juniper = "0.16"
juniper_axum = "0.1"
futures = "0.3"
futures-util = "0.3"
tracing-subscriber = "0.3"
