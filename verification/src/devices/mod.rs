//! The devices that a guest sees, and the buses that lead to them.
//!
//! [`DeviceManager`] takes what a vCPU stops for to the device that it is for:
//! port I/O to the devices on one [`bus::Bus`], which may hold the PCI bus too,
//! memory-mapped I/O to those on another.

pub mod balloon;
pub mod block;
pub mod bus;
pub mod fs;
pub mod fuse;
pub mod gpu;
pub mod net;
pub mod pl011;
pub mod rng;
pub mod serial;
pub mod uart;
pub mod vfio;
pub mod vsock;
pub mod vsock_conn;
pub mod vsock_muxer;

use crate::devices::bus::{Bus, BusEntry, BusError, BusRange, BusTarget};
use crate::pci::{PciBus, PciView};
use crate::vm::{ExitAction, VcpuError, VmExit};
use vstd::prelude::*;

verus! {

/// PCI configuration address register port.
pub const PCI_CONFIG_ADDRESS: u16 = 0xCF8;

/// Number of PCI configuration ports: address and data.
pub const PCI_CONFIG_IO_SIZE: u64 = 8;

/// Keyboard controller command port.
pub const KBD_CMD_PORT: u16 = 0x64;

/// Keyboard controller command that resets the CPU.
pub const KBD_RESET_CMD: u8 = 0xFE;

/// PCI reset control register port.
pub const PCI_RESET_PORT: u16 = 0xCF9;

/// PCI reset control: hard reset.
pub const PCI_RESET_BIT: u8 = 0x04;

/// Fast A20 and system reset port.
pub const FAST_RESET_PORT: u16 = 0x92;

/// Fast A20 and system reset: reset.
pub const FAST_RESET_BIT: u8 = 0x01;

/// Whether a write to a port resets the machine: the reset command to the
/// keyboard controller, or the reset bit to the PCI reset register or the fast
/// reset port. Without data it does not.
pub open spec fn reboots(port: u16, data: Seq<u8>) -> bool {
    data.len() > 0 && {
        ||| port == KBD_CMD_PORT && data[0] == KBD_RESET_CMD
        ||| port == PCI_RESET_PORT && data[0] & PCI_RESET_BIT != 0
        ||| port == FAST_RESET_PORT && data[0] & FAST_RESET_BIT != 0
    }
}

/// Tells whether a write to a port resets the machine.
pub fn is_reboot_io(port: u16, data: &[u8]) -> (r: bool)
    ensures
        r == reboots(port, data@),
{
    if data.len() == 0 {
        return false;
    }
    let byte = data[0];
    match port {
        KBD_CMD_PORT => byte == KBD_RESET_CMD,
        PCI_RESET_PORT => byte & PCI_RESET_BIT != 0,
        FAST_RESET_PORT => byte & FAST_RESET_BIT != 0,
        _ => false,
    }
}

/// What a vCPU does after it stopped.
pub open spec fn action_after(exit: VmExit) -> ExitAction {
    match exit {
        VmExit::IoOut { port, data } => if reboots(port, data@) {
            ExitAction::Stop
        } else {
            ExitAction::Continue
        },
        VmExit::Shutdown => ExitAction::Stop,
        VmExit::Reboot => ExitAction::Stop,
        _ => ExitAction::Continue,
    }
}

/// The configuration ports of the PCI bus.
pub open spec fn pci_ports() -> BusRange {
    BusRange { base: PCI_CONFIG_ADDRESS as u64, size: PCI_CONFIG_IO_SIZE }
}

/// The buses and what is on them.
pub struct DeviceManager {
    /// Port I/O bus.
    pub pio_bus: Bus,
    /// Memory-mapped I/O bus.
    pub mmio_bus: Bus,
}

impl DeviceManager {
    /// What every device manager keeps: the buses keep theirs.
    pub open spec fn wf(self) -> bool {
        &&& self.pio_bus.wf()
        &&& self.mmio_bus.wf()
    }

    /// The PCI bus, if it is enabled: it stands on the port I/O bus.
    pub open spec fn pci(self) -> Option<PciBus> {
        self.pio_bus.pci_at(PCI_CONFIG_ADDRESS as u64)
    }

    /// Buses without devices.
    #[must_use]
    pub fn new() -> (r: Self)
        ensures
            r.wf(),
            r.pio_bus.entries().len() == 0,
            r.mmio_bus.entries().len() == 0,
            r.pci() is None,
    {
        DeviceManager { pio_bus: Bus::new(), mmio_bus: Bus::new() }
    }

    /// Enables PCI: puts an empty PCI bus at ports `0xCF8` to `0xCFF` of the port
    /// I/O bus. Fails if another device has one of them, so also if PCI is
    /// enabled already. All other devices stay where they are.
    pub fn enable_pci(&mut self) -> (r: Result<(), BusError>)
        requires
            old(self).wf(),
        ensures
            final(self).wf(),
            final(self).mmio_bus == old(self).mmio_bus,
            r == bus::registration(old(self).pio_bus.ranges(), pci_ports()),
            r is Err ==> final(self).pio_bus.entries() == old(self).pio_bus.entries()
                && final(self).pci() == old(self).pci(),
            r is Ok ==> {
                &&& final(self).pci() is Some
                &&& final(self).pci()->0@ == PciView::empty()
                &&& final(self).pio_bus.ranges() == bus::with_range(
                    old(self).pio_bus.ranges(),
                    pci_ports(),
                )
                &&& final(self).pio_bus.entries() == bus::with_entry(
                    old(self).pio_bus.entries(),
                    BusEntry {
                        base: PCI_CONFIG_ADDRESS as u64,
                        size: PCI_CONFIG_IO_SIZE,
                        device: BusTarget::Pci(final(self).pci()->0),
                    },
                )
            },
    {
        let pci = PciBus::new();
        let r = self.pio_bus.register_pci(PCI_CONFIG_ADDRESS as u64, PCI_CONFIG_IO_SIZE, pci);
        proof {
            if r is Ok {
                let ranges = old(self).pio_bus.ranges();
                let pos = bus::place(ranges, pci_ports().base) as int;
                bus::lemma_place(ranges, pci_ports().base);
                bus::law_registration_routes(ranges, pos, pci_ports(), pci_ports().base);
            }
        }
        r
    }

    /// The PCI bus, if it is enabled.
    #[must_use]
    pub fn pci_bus(&self) -> (r: Option<&PciBus>)
        requires
            self.wf(),
        ensures
            match r {
                Some(b) => self.pci() == Some(*b),
                None => self.pci() is None,
            },
    {
        self.pio_bus.pci(PCI_CONFIG_ADDRESS as u64)
    }

    /// The PCI bus, if it is enabled, to put devices on.
    pub fn pci_bus_mut(&mut self) -> (r: Option<&mut PciBus>)
        requires
            old(self).wf(),
        ensures
            final(self).wf(),
            final(self).mmio_bus == old(self).mmio_bus,
            final(self).pio_bus.ranges() == old(self).pio_bus.ranges(),
            match r {
                Some(b) => {
                    let i = bus::owner(old(self).pio_bus.ranges(), PCI_CONFIG_ADDRESS as u64);
                    &&& old(self).pci() == Some(*b)
                    &&& final(self).pci() == Some(*final(b))
                    &&& final(self).pio_bus.entries() == old(self).pio_bus.entries().update(
                        i,
                        BusEntry {
                            device: BusTarget::Pci(*final(b)),
                            ..old(self).pio_bus.entries()[i]
                        },
                    )
                },
                None => old(self).pci() is None && final(self).pio_bus.entries() == old(
                    self,
                ).pio_bus.entries(),
            },
    {
        self.pio_bus.pci_mut(PCI_CONFIG_ADDRESS as u64)
    }

    /// Takes what a vCPU stopped for to where it belongs, and tells what the vCPU
    /// does next. Reads are done by [`Self::handle_io_read`] and
    /// [`Self::handle_mmio_read`]. A write that no device takes is ignored.
    pub fn handle_exit(&mut self, exit: VmExit) -> (r: Result<ExitAction, VcpuError>)
        requires
            old(self).wf(),
        ensures
            final(self).wf(),
            r == Ok::<ExitAction, VcpuError>(action_after(exit)),
            match exit {
                VmExit::IoOut { port, data } => {
                    &&& final(self).mmio_bus == old(self).mmio_bus
                    &&& if reboots(port, data@) {
                        *final(self) == *old(self)
                    } else {
                        bus::write_done(
                            old(self).pio_bus,
                            final(self).pio_bus,
                            port as u64,
                            data@,
                            bus::route(old(self).pio_bus.ranges(), port as u64) is Some,
                        )
                    }
                },
                VmExit::MmioWrite { addr, data } => {
                    &&& final(self).pio_bus == old(self).pio_bus
                    &&& bus::write_done(
                        old(self).mmio_bus,
                        final(self).mmio_bus,
                        addr,
                        data@,
                        bus::route(old(self).mmio_bus.ranges(), addr) is Some,
                    )
                },
                _ => *final(self) == *old(self),
            },
            final(self).pio_bus.ranges() == old(self).pio_bus.ranges(),
            final(self).mmio_bus.ranges() == old(self).mmio_bus.ranges(),
    {
        match exit {
            VmExit::IoOut { port, data } => {
                if is_reboot_io(port, data.as_bytes()) {
                    return Ok(ExitAction::Stop);
                }
                let _ = self.pio_bus.write(port as u64, data.as_bytes());
                Ok(ExitAction::Continue)
            },
            VmExit::MmioWrite { addr, data } => {
                let _ = self.mmio_bus.write(addr, data.as_bytes());
                Ok(ExitAction::Continue)
            },
            VmExit::Shutdown => Ok(ExitAction::Stop),
            VmExit::Reboot => Ok(ExitAction::Stop),
            _ => Ok(ExitAction::Continue),
        }
    }

    /// Reads from a port. Where no device is, all bits are set.
    pub fn handle_io_read(&mut self, port: u16, data: &mut [u8])
        requires
            old(self).wf(),
        ensures
            final(self).wf(),
            final(self).mmio_bus == old(self).mmio_bus,
            final(self).pio_bus.ranges() == old(self).pio_bus.ranges(),
            bus_read_or_ones(
                old(self).pio_bus,
                final(self).pio_bus,
                port as u64,
                old(data)@,
                final(data)@,
            ),
    {
        read_or_ones(&mut self.pio_bus, port as u64, data);
    }

    /// Reads from an address outside of guest memory. Where no device is, all
    /// bits are set.
    pub fn handle_mmio_read(&mut self, addr: u64, data: &mut [u8])
        requires
            old(self).wf(),
        ensures
            final(self).wf(),
            final(self).pio_bus == old(self).pio_bus,
            final(self).mmio_bus.ranges() == old(self).mmio_bus.ranges(),
            bus_read_or_ones(
                old(self).mmio_bus,
                final(self).mmio_bus,
                addr,
                old(data)@,
                final(data)@,
            ),
    {
        read_or_ones(&mut self.mmio_bus, addr, data);
    }
}

impl Default for DeviceManager {
    fn default() -> (r: Self)
        ensures
            r.wf(),
            r.pio_bus.entries().len() == 0,
            r.mmio_bus.entries().len() == 0,
            r.pci() is None,
    {
        DeviceManager::new()
    }
}

/// Once PCI is enabled, the ports from `0xCF8` to `0xCFF` lead to the PCI bus at
/// their offset and every other port where it led before, and enabling it again
/// is refused.
pub proof fn law_pci_on_its_ports(before: Seq<BusRange>, port: u16)
    requires
        bus::ranges_wf(before),
        bus::registration(before, pci_ports()) is Ok,
    ensures
        ({
            let after = bus::with_range(before, pci_ports());
            let pos = bus::place(before, pci_ports().base) as int;
            &&& bus::route(after, port as u64) == if PCI_CONFIG_ADDRESS <= port
                < PCI_CONFIG_ADDRESS + PCI_CONFIG_IO_SIZE {
                Some((pos, (port - PCI_CONFIG_ADDRESS) as u64))
            } else {
                match bus::route(before, port as u64) {
                    None => None,
                    Some((i, offset)) => Some((if i < pos {
                        i
                    } else {
                        i + 1
                    }, offset)),
                }
            }
            &&& bus::registration(after, pci_ports()) == Err::<(), BusError>(
                BusError::Overlap { base: PCI_CONFIG_ADDRESS as u64, size: PCI_CONFIG_IO_SIZE },
            )
        }),
{
    let pos = bus::place(before, pci_ports().base) as int;
    bus::lemma_place(before, pci_ports().base);
    bus::law_ranges_stay_apart(before, pci_ports());
    bus::law_registration_routes(before, pos, pci_ports(), port as u64);
    bus::law_no_second_registration(before, pos, pci_ports());
}

/// What a read does on a bus where missing devices read as ones.
pub open spec fn bus_read_or_ones(
    before: Bus,
    after: Bus,
    addr: u64,
    data: Seq<u8>,
    read: Seq<u8>,
) -> bool {
    if bus::route(before.ranges(), addr) is None {
        after.entries() == before.entries() && after.ranges() == before.ranges() && read == Seq::new(data.len(), |i: int| 0xFFu8)
    } else {
        bus::read_done(before, after, addr, data, read, true)
    }
}

/// Reads from a bus where missing devices read as ones.
fn read_or_ones(b: &mut Bus, addr: u64, data: &mut [u8])
    requires
        old(b).wf(),
    ensures
        final(b).wf(),
        final(b).ranges() == old(b).ranges(),
        bus_read_or_ones(*old(b), *final(b), addr, old(data)@, final(data)@),
{
    match b.read(addr, data) {
        Some(_) => {},
        None => {
            let n: usize = data.len();
            let mut i: usize = 0;
            while i < n
                invariant
                    i <= n,
                    n == data@.len(),
                    forall|k: int| 0 <= k < i ==> #[trigger] data@[k] == 0xFF,
                decreases n - i,
            {
                data[i] = 0xFF;
                i = i + 1;
            }
            assert(data@ =~= Seq::new(n as nat, |i: int| 0xFFu8));
        },
    }
}

} // verus!
