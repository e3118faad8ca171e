[package]
name = "snare"
version = "1.0.0"
edition = "2021"
publish = false

[dependencies]
anymap2 = "0.13"
event-listener = "5"
parking_lot = "0.12"
mio = { version = "1", default-features = false }

[dev-dependencies]
bincode = "2"
