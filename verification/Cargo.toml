[package]
name = "publisher_core"
version = "0.1.0"
edition = "2021"
publish = false

[dependencies]
iceoryx2-bb-container = "=0.10.0"
iceoryx2-bb-elementary = "=0.10.0"
iceoryx2-bb-elementary-traits = "=0.10.0"
iceoryx2-bb-lock-free = "=0.10.0"
iceoryx2-bb-loggers = "=0.10.0"
iceoryx2-pal-concurrency-sync = "=0.10.0"
