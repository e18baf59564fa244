[package]
name = "axvm_devices"
version = "0.1.0"
edition = "2021"
publish = false

[dependencies]
ax-cpumask = "=0.3.7"
ax-errno = "=0.6.3"
ax-kspin = "=0.3.17"
ax-memory-addr = "=0.6.11"
axaddrspace = "=0.5.20"
axdevice_base = "0.5"
axvcpu = "0.7"
axvm-types = "=0.5.13"
spin = "=0.12.3"
x86 = "=0.52.0"
x86_64 = { version = "=0.15.5", default-features = false, features = ["instructions"] }
