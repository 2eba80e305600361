[package]
name = "rmms_engine"
version = "0.1.0"
edition = "2021"
publish = false

[dependencies]
bytemuck = "1"
hound = "3"
parking_lot = "0.12"
portable-atomic = { version = "1", features = ["float"] }
rb = "0.4"
rubato = "0.12"
symphonia = "0.5"
cpal = "0.15"
