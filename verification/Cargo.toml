[package]
name = "batch_tracing"
version = "0.1.0"
edition = "2021"
publish = false

[dependencies]
crossbeam-channel = "*"
slab = "*"
minstant = "*"
pin-project = "*"
futures = "0.1"
rustracing_jaeger = "*"
thrift_codec = "*"
