[package]
name = "horaedb_client"
version = "0.1.0"
edition = "2021"
publish = false

[dependencies]
arrow = "=38.0.0"
async-trait = "=0.1.92"
avro-rs = "=0.13.0"
ceresdbproto = "=1.0.23"
dashmap = "=5.5.3"
futures = "=0.3.34"
grpcio = "=0.9.1"
horaedbproto = "=2.0.0"
paste = "=1.0.15"
thiserror = "=1.0.69"
tokio = { version = "=1.54.1", features = ["macros", "rt", "sync"] }
tonic = "=0.8.3"
zstd = "=0.12.4"

[dev-dependencies]
chrono = "=0.4.38"
