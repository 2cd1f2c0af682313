[package]
name = "oxy"
version = "0.1.0"
edition = "2021"
publish = false

[dependencies]
libflate = "=2.3.2"
log = "=0.4.35"
nix = "=0.11.1"
serde = { version = "=1.0.229", features = ["derive"] }
serde_cbor = "=0.9.0"
shlex = "=0.1.1"
snow = "=0.5.2"
termion = "=1.5.6"
transportation = "=2.0.0"
