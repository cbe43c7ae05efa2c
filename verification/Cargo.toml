[package]
name = "render_core"
version = "0.1.0"
edition = "2021"
publish = false

[dependencies]
smallvec = "1"
sha2 = "0.10"
ash = "0.38"
log = "0.4"
simple_logger = "5"
ringbuf = "0.4"
rand = "0.9"
anyhow = "1"
parking_lot = "0.12"
winit = "0.30"
