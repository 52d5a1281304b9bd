[package]
name = "burn"
version = "0.1.0"
edition = "2021"
publish = false

[dependencies]
flate2 = "=1.1.10"
serde = { version = "=1.0.229", features = ["derive"] }
serde_json = "=1.0.154"
bincode = { version = "=2.0.1", features = ["serde"] }
rmp-serde = "=1.3.1"
csv = "=1.4.0"
ndarray = "=0.15.6"
matrixmultiply = "=0.3.11"
rayon = "=1.12.0"
sysinfo = "=0.29.11"
rand = "=0.8.8"
proc-macro2 = "=1.0.107"
quote = "=1.0.47"
strum = "=0.25.0"
strum_macros = "=0.25.3"
half = "=2.4.1"
bytemuck = "=1.25.2"
num-traits = "=0.2.19"
wgpu = "=0.17.2"
candle-core = "=0.3.3"
