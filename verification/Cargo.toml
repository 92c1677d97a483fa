[package]
name = "tiled"
version = "0.1.0"
edition = "2021"
publish = false

[dependencies]
quick-xml = "0.37"
hashbrown = "*"
portable-atomic-util = { version = "*", features = ["alloc"] }
xml-rs = "0.8"
itertools = "*"
no_std_io2 = "*"
