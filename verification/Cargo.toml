[package]
name = "bevy_proto"
version = "0.1.0"
edition = "2021"
publish = false

[dependencies]
indexmap = "1.9"
serde = { version = "1", features = ["derive"] }
thiserror = "1"
syn = { version = "2", features = ["full"] }
quote = "1"
proc-macro2 = "1"
proc-macro-crate = "1"
uuid = { version = "1", features = ["v4"] }
to_phantom = "0.1"
parking_lot = "0.12"
