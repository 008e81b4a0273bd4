[package]
name = "vfio_passthrough"
version = "0.1.0"
edition = "2021"
publish = false

[dependencies]
displaydoc = "*"
kvm-bindings = "*"
libc = "*"
log = "*"
serde = { version = "*", features = ["derive"] }
serde_json = "*"
thiserror = "*"
vfio-bindings = "*"
vfio-ioctls = "*"
vfio_user = "*"
vm-allocator = "*"
vm-memory = "*"
vmm-sys-util = "*"
