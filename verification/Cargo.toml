[package]
name = "oxide_eda"
version = "0.1.0"
edition = "2021"
publish = false

[dependencies]
byteorder = "1"
flate2 = "1"
uuid = { version = "1", features = ["v4", "v7"] }
chrono = "0.4"
serde = { version = "1", features = ["derive"] }
serde_json = "1"
rayon = "1"
bytemuck = { version = "1", features = ["derive"] }
actix-web = "4"
actix-cors = "0.7"
futures-util = "0.3"
tokio = { version = "1", features = ["rt-multi-thread", "macros", "time"] }
anyhow = "1"
tracing = "0.1"
tracing-subscriber = { version = "0.3", features = ["env-filter"] }
thiserror = "*"
log = "0.4"
