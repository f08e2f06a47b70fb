[package]
name = "visor_vmm"
version = "0.1.0"
edition = "2021"
publish = false

[dependencies]
acpi_tables = "*"
vm-fdt = "*"
kvm-bindings = "*"
libc = "0.2"
serde = { version = "1", features = ["derive"] }
thiserror = "*"
tokio = { version = "1", features = ["net", "io-util", "rt", "time", "sync", "macros"] }
toml = "*"
tracing = "0.1"

[dev-dependencies]
tempfile = "3"
