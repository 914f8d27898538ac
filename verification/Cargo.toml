[package]
name = "ticket_lock"
version = "0.1.0"
edition = "2021"
publish = false

[dependencies]
etcd-rs = "=0.6.0"
tokio = { version = "=1.54.1", features = ["rt", "macros", "time"] }
futures = "=0.3.34"
