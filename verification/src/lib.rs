//! The logic of a small virtual machine monitor: guest memory, boot images,
//! ACPI and device tree tables, CPU templates, and the devices a guest sees.
//!
//! Everything in here is a plain computation on plain values. Reading files,
//! sockets and the kernel's interfaces is left to the program around it.

pub mod acpi;
pub mod boot;
pub mod bytes;
pub mod comms;
pub mod cpu_template;
pub mod devices;
pub mod failure;
pub mod laws;
pub mod memory;
pub mod path;
pub mod pci;
pub mod text;
pub mod transport;
pub mod vm;
