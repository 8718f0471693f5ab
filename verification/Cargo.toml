[package]
name = "dd_discord"
version = "0.1.0"
edition = "2021"
publish = false

[dependencies]
redb = "*"
uuid = { version = "*", features = ["v4"] }
axum = "*"
tokio = { version = "*", features = ["macros", "rt-multi-thread", "signal", "net", "time"] }
tokio-util = { version = "*", features = ["rt"] }
serde = { version = "*", features = ["derive"] }
serde_json = "*"
tracing = "*"
tracing-subscriber = { version = "*", features = ["env-filter", "json", "fmt"] }
tracing-panic = "*"
http = "*"
reqwest = { version = "*", default-features = false, features = ["rustls-tls", "json"] }
ed25519-dalek = "*"
hex = "*"
twilight-http = "*"
twilight-model = "*"
twilight-util = { version = "*", features = ["builder"] }
ddclient-rs = "*"

[dev-dependencies]
rand = "*"
