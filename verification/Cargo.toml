[package]
name = "glide_ffi"
version = "0.1.0"
edition = "2021"
publish = false

[dependencies]
glide-core = { version = "=0.1.1", features = ["proto"] }
glide-core-engine = "=0.1.1"
protobuf = "=3.7.2"
tokio = { version = "=1.53.2", features = ["rt-multi-thread"] }
