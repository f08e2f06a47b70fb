# visor_vmm

The device models, boot loaders and wire formats of a small virtual machine
monitor, written in Rust and proved with Verus. What a function does stands in
its `requires` and `ensures`; what holds across functions stands in public proof
functions whose names start with `law_`.

## Layout

- `src/` is the library. All of it is verified.
  - `bytes`, `text`, `path`, `failure`: encodings, texts, paths and error values.
  - `memory`, `transport`, `vm`: guest memory, virtqueues, and what a device
    needs of them.
  - `boot`: loaders for x86_64 (ELF) and aarch64 (Image), page
    tables, GDT, boot parameters, and the flattened device tree.
  - `acpi`: the ACPI tables of an x86_64 guest.
  - `cpu_template`: CPUID filters.
  - `pci`: the PCI bus behind its configuration ports.
  - `devices`: serial ports (16550A and PL011), the bus, the virtio devices
    (balloon, block, entropy, file system, network, vsock), VFIO addresses and
    GPU passthrough.
  - `comms`: how a host program reaches a port of a guest.
- `tests/` runs the library on concrete values.
- `app/` is ordinary Rust around the library: files, sockets, device nodes, TOML
  and whatever else touches the host. It hands plain values in and performs what
  the library decides.

## What is trusted

Calls into `acpi_tables` and `vm-fdt`, and two calls into `std`, stand behind
small functions marked `external_body`. The doc comment of each says what is
taken for granted of the call.
