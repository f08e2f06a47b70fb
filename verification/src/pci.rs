//! A PCI bus as the guest's configuration mechanism sees it: a register that
//! selects a device and one of its configuration registers, and a window on the
//! selected register.

use crate::bytes::{self, get_le32, le32_vec};
use crate::transport::DeviceType;
use vstd::prelude::*;

verus! {

/// Vendor ID of virtio devices.
pub const VIRTIO_VENDOR_ID: u32 = 0x1AF4;

/// Device ID of a virtio device is this and its device number.
pub const VIRTIO_DEVICE_ID_BASE: u32 = 0x1040;

/// Number of devices that a bus takes.
pub const SLOT_COUNT: usize = 32;

/// Errors of the PCI bus.
#[derive(Debug, Clone, Copy, PartialEq, Eq, Structural)]
#[non_exhaustive]
pub enum PciError {
    /// There is no such slot.
    NoSuchSlot,
    /// The slot holds a device.
    SlotTaken,
}

/// A virtio device on the PCI bus.
#[derive(Debug, Clone, Copy, PartialEq, Eq, Structural)]
pub struct PciDevice {
    pub device_type: DeviceType,
    pub irq: u8,
}

impl PciDevice {
    /// A virtio device with an interrupt line.
    #[must_use]
    pub fn new(device_type: DeviceType, irq: u8) -> (r: Self)
        ensures
            r == (PciDevice { device_type, irq }),
    {
        PciDevice { device_type, irq }
    }

    /// The configuration register at an offset: the vendor and device IDs, the
    /// interrupt line, and zeros.
    pub open spec fn spec_config(self, register: u32) -> u32 {
        if register == 0 {
            ((VIRTIO_DEVICE_ID_BASE + self.device_type.spec_id()) * 0x1_0000
                + VIRTIO_VENDOR_ID) as u32
        } else if register == 0x3C {
            self.irq as u32
        } else {
            0
        }
    }

    /// Reads the configuration register at an offset.
    #[must_use]
    pub fn config(&self, register: u32) -> (r: u32)
        ensures
            r == self.spec_config(register),
    {
        if register == 0 {
            (VIRTIO_DEVICE_ID_BASE + self.device_type.id() as u32) * 0x1_0000 + VIRTIO_VENDOR_ID
        } else if register == 0x3C {
            self.irq as u32
        } else {
            0
        }
    }
}

/// What a PCI bus is: the selection, and the devices in their slots.
#[verifier::ext_equal]
pub struct PciView {
    pub address: u32,
    pub slots: Seq<Option<PciDevice>>,
}

impl PciView {
    /// A bus without devices, with nothing selected.
    pub open spec fn empty() -> PciView {
        PciView { address: 0, slots: Seq::new(SLOT_COUNT as nat, |i: int| None) }
    }

    /// The value of the selected register. Without the enable bit, on another
    /// bus, for another function than the first, or without a device, all bits
    /// are set.
    pub open spec fn selected(self) -> u32 {
        let slot = (self.address / 0x800 % 32) as int;
        if self.address / 0x8000_0000 == 1 && self.address / 0x1_0000 % 0x100 == 0 && self.address
            / 0x100 % 8 == 0 && slot < self.slots.len() && self.slots[slot] is Some {
            self.slots[slot]->0.spec_config((self.address % 0x100 / 4 * 4) as u32)
        } else {
            0xFFFF_FFFF
        }
    }

    /// The byte at an offset: of the selection, then of the selected register,
    /// then ones.
    pub open spec fn byte_at(self, offset: int) -> u8 {
        if offset < 4 {
            bytes::le32_bytes(self.address)[offset]
        } else if offset < 8 {
            bytes::le32_bytes(self.selected())[offset - 4]
        } else {
            0xFF
        }
    }

    /// What `n` bytes at an offset read as.
    pub open spec fn bytes_at(self, offset: u64, n: nat) -> Seq<u8> {
        Seq::new(n, |i: int| self.byte_at(offset + i))
    }

    /// What a write does: four bytes at the start set the selection, and others
    /// are ignored.
    pub open spec fn after_write(self, offset: u64, data: Seq<u8>) -> PciView {
        if offset == 0 && data.len() == 4 {
            PciView { address: bytes::le32(data, 0), ..self }
        } else {
            self
        }
    }
}

/// A PCI bus.
#[derive(Debug)]
pub struct PciBus {
    address: u32,
    slots: Vec<Option<PciDevice>>,
}

impl View for PciBus {
    type V = PciView;

    closed spec fn view(&self) -> PciView {
        PciView { address: self.address, slots: self.slots@ }
    }
}

impl PciBus {
    /// A bus without devices.
    #[must_use]
    pub fn new() -> (r: Self)
        ensures
            r@ == PciView::empty(),
    {
        let slots: Vec<Option<PciDevice>> = vec![None; SLOT_COUNT];
        let r = PciBus { address: 0, slots };
        assert(r@ =~= PciView::empty());
        r
    }

    /// Puts a device into a slot.
    pub fn add_device(&mut self, slot: usize, device: PciDevice) -> (r: Result<(), PciError>)
        ensures
            r == if slot >= old(self)@.slots.len() {
                Err(PciError::NoSuchSlot)
            } else if old(self)@.slots[slot as int] is Some {
                Err(PciError::SlotTaken)
            } else {
                Ok(())
            },
            final(self)@ == if r is Ok {
                PciView {
                    slots: old(self)@.slots.update(slot as int, Some(device)),
                    ..old(self)@
                }
            } else {
                old(self)@
            },
    {
        if slot >= self.slots.len() {
            return Err(PciError::NoSuchSlot);
        }
        if self.slots[slot].is_some() {
            return Err(PciError::SlotTaken);
        }
        self.slots.set(slot, Some(device));
        Ok(())
    }

    fn selected(&self) -> (r: u32)
        ensures
            r == self@.selected(),
    {
        let a: u32 = self.address;
        let slot: usize = (a / 0x800 % 32) as usize;
        if a / 0x8000_0000 == 1 && a / 0x1_0000 % 0x100 == 0 && a / 0x100 % 8 == 0 && slot
            < self.slots.len() {
            match self.slots[slot] {
                Some(device) => device.config(a % 0x100 / 4 * 4),
                None => 0xFFFF_FFFF,
            }
        } else {
            0xFFFF_FFFF
        }
    }

    /// Reads the bytes at an offset from the selection register.
    pub fn read(&self, offset: u64, data: &mut [u8])
        ensures
            final(data)@ == self@.bytes_at(offset, old(data)@.len()),
    {
        let address = le32_vec(self.address);
        let selected = le32_vec(self.selected());
        let n: usize = data.len();
        let mut i: usize = 0;
        while i < n
            invariant
                i <= n,
                n == data@.len(),
                n == old(data)@.len(),
                address@ == bytes::le32_bytes(self@.address),
                selected@ == bytes::le32_bytes(self@.selected()),
                forall|k: int| 0 <= k < i ==> #[trigger] data@[k] == self@.byte_at(offset + k),
            decreases n - i,
        {
            let at: u64 = offset.saturating_add(i as u64);
            data[i] = if at < 4 {
                address[at as usize]
            } else if at < 8 {
                selected[(at - 4) as usize]
            } else {
                0xFF
            };
            i = i + 1;
        }
        assert(data@ =~= self@.bytes_at(offset, old(data)@.len()));
    }

    /// Writes bytes at an offset from the selection register.
    pub fn write(&mut self, offset: u64, data: &[u8])
        ensures
            final(self)@ == old(self)@.after_write(offset, data@),
    {
        if offset == 0 && data.len() == 4 {
            self.address = get_le32(data, 0);
        }
    }
}

/// The selection reads back as it was written.
pub proof fn law_selection_reads_back(v: PciView, data: Seq<u8>)
    requires
        data.len() == 4,
    ensures
        v.after_write(0, data).bytes_at(0, 4) == data,
{
    bytes::law_le32_bytes_of_value(data);
    assert(v.after_write(0, data).bytes_at(0, 4) =~= data);
}

/// Without the enable bit the window reads as ones.
pub proof fn law_disabled_window(v: PciView, n: nat)
    requires
        v.address < 0x8000_0000,
        n <= 4,
    ensures
        v.bytes_at(4, n) == Seq::new(n, |i: int| 0xFFu8),
{
    assert(v.bytes_at(4, n) =~= Seq::new(n, |i: int| 0xFFu8));
}

} // verus!
