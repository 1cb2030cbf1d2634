[package]
name = "disintegrate"
version = "0.1.0"
edition = "2021"
publish = false

[dependencies]
regex = "1"
uuid = { version = "1", features = ["v3", "v4", "serde"] }
sqlx = { version = "0.8", default-features = false, features = ["postgres", "runtime-tokio", "uuid", "json"] }
md-5 = "0.10"
serde = { version = "1", features = ["derive"] }
serde_json = "1"
rmp-serde = "1"
tokio = { version = "1", features = ["sync", "rt", "macros", "time"] }
tokio-util = "0.7"
futures = "0.3"
async-trait = "0.1"
async-stream = "0.3"
thiserror = "1"
prost = "0.13"
protobuf = "3"
apache-avro = "0.17"
