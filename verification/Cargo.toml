[package]
name = "vmm"
version = "0.1.0"
edition = "2021"
publish = false

[dependencies]
anyhow = "1"
kvm-bindings = { version = "0.10", features = ["fam-wrappers"] }
kvm-ioctls = "0.19"
libc = "0.2"
nix = { version = "0.29", features = ["fs", "mman", "socket", "uio"] }
serde = { version = "1", features = ["derive"] }
serde_json = "1"
thiserror = "2"
tokio = { version = "1", features = ["rt-multi-thread", "macros", "net", "io-util", "sync", "signal", "time"] }
tracing = "0.1"
tracing-subscriber = { version = "0.3", features = ["env-filter"] }
vm-memory = { version = "0.16", features = ["backend-mmap"] }
