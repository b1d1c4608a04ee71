[package]
name = "qvisor"
version = "0.1.0"
edition = "2021"
publish = false

[dependencies]
kvm-bindings = "*"
kvm-ioctls = "*"
libc = "*"
