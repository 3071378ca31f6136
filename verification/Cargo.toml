[package]
name = "lavende"
version = "0.1.0"
edition = "2021"
publish = false

[dependencies]
flume = "0.11"
audiopus = "=0.3.0-rc.0"
tracing = "0.1"
