[package]
name = "s3gate"
version = "0.1.0"
edition = "2021"
publish = false

[dependencies]
md-5 = "*"
sha2 = "*"
hex = "*"
axum = "*"
tokio = { version = "*", features = ["rt-multi-thread", "net", "macros"] }
sqlx = { version = "*", default-features = false, features = ["runtime-tokio", "postgres", "chrono"] }
reqwest = { version = "*", default-features = false, features = ["json"] }
serde = { version = "*", features = ["derive"] }
quick-xml = { version = "*", features = ["serialize"] }
chrono = "*"
tracing = "*"
tracing-subscriber = { version = "*", features = ["env-filter", "json"] }
tower-http = { version = "*", features = ["trace"] }
async-stream = "*"
tokio-stream = "*"
