[package]
name = "service_bootstrap"
version = "0.1.0"
edition = "2021"
publish = false

[dependencies]
axum = "=0.6.20"
dotenv = "=0.15.0"
sqlx = { version = "=0.7.4", default-features = false, features = ["runtime-tokio", "postgres"] }
tokio = { version = "=1.54.1", features = ["macros", "rt-multi-thread"] }
tracing = "=0.1.44"
tracing-subscriber = { version = "=0.3.23", features = ["env-filter"] }

[dev-dependencies]
envy = "0.4"
