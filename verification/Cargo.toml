[package]
name = "vsock_packet"
version = "0.1.0"
edition = "2021"
publish = false

[dependencies]
byteorder = "=1.5.0"
virtio-queue = "=0.16.0"
vm-memory = { version = "=0.16.2", features = ["backend-mmap"] }

[dev-dependencies]
virtio-bindings = "=0.2.7"
virtio-queue = { version = "=0.16.0", features = ["test-utils"] }
