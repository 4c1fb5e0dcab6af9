[package]
name = "rust_socket_benchmark"
version = "0.1.0"
edition = "2021"
publish = false

[dependencies]
smallvec = "=1.16.4"
num_cpus = "=1.17.0"
anyhow = "=1.0.104"
futures = "=0.3.34"
socket2 = { version = "=0.3.19", features = ["reuseport"] }
mio = { version = "=0.7.14", features = ["os-poll", "net"] }
tokio = { version = "=1.54.1", features = ["full"] }
