[package]
name = "packet_pipeline"
version = "0.1.0"
edition = "2021"
publish = false

[dependencies]
chrono = "0.4"
mongodb = "2"
tokio = { version = "1", features = ["macros", "rt-multi-thread"] }
futures-util = "0.3"
pnet = "0.35"
pcap = "*"
