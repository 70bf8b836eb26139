[package]
name = "raft-engine-strings"
version = "0.1.0"
edition = "2021"
publish = false

[dependencies]
arrow-array = "=60.1.0"
arrow-flight = "=60.1.0"
arrow-json = "=60.1.0"
arrow-schema = "=60.1.0"
arrow-ipc = { version = "=60.1.0", features = ["lz4"] }
chrono = { version = "=0.4.45", default-features = false, features = ["alloc", "std"] }
greptime-proto = "=0.1.0"
prost = "=0.14.4"
protobuf = "=2.28.0"
raft-engine = "=0.4.2"
serde_json = "=1.0.154"
