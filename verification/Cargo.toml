[package]
name = "bad-uefi"
version = "0.1.0"
edition = "2021"
publish = false

[dependencies]
log = "=0.4.35"
uefi = "=0.26.0"
uefi-services = { version = "=0.23.0", default-features = false, features = ["logger"] }
