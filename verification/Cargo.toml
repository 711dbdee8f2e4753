[package]
name = "virtgpu_channel"
version = "0.1.0"
edition = "2021"
publish = false

[dependencies]
nix = { version = "0.27", features = ["ioctl", "mman", "fs"] }
wayrs-client = "1"
wayrs-core = "1"
