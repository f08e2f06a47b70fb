//! What a guest reads and writes at the registers of its consoles, on its buses and
//! in the configuration space of its PCI devices.

use crate::bytes;
use crate::devices::bus::{self, BusRange};
use crate::devices::pl011::Pl011View;
use crate::devices::uart::UartView;
use crate::pci::{PciDevice, PciView};
use vstd::prelude::*;

verus! {

/// Whether two consoles differ in nothing but what is pending and how often the
/// guest was interrupted.
pub open spec fn same_settings(v: UartView, w: UartView) -> bool {
    &&& w.ier == v.ier
    &&& w.lcr == v.lcr
    &&& w.mcr == v.mcr
    &&& w.msr == v.msr
    &&& w.scr == v.scr
    &&& w.dll == v.dll
    &&& w.dlh == v.dlh
}

/// Whether the guest has the data register show the divisor.
pub open spec fn shows_divisor(v: UartView) -> bool {
    v.lcr >= 0x80
}

/// Whether the guest has its output come back as input.
pub open spec fn comes_back(v: UartView) -> bool {
    v.mcr / 0x10 % 2 == 1
}

/// A console's bits as numbers.
proof fn lemma_bits(v: UartView)
    ensures
        v.dlab() == shows_divisor(v),
        v.loops() == comes_back(v),
        v.ier & 1 != 0 <==> v.ier % 2 == 1,
        v.ier & 2 != 0 <==> v.ier / 2 % 2 == 1,
        v.iir & 2 != 0 <==> v.iir / 2 % 2 == 1,
        v.iir & 4 != 0 <==> v.iir / 4 % 2 == 1,
{
    let (l, c, e, i) = (v.lcr, v.mcr, v.ier, v.iir);
    assert((l & 0x80 != 0 <==> l >= 0x80) && (c & 0x10 != 0 <==> c / 0x10 % 2 == 1) && (e & 1 != 0
        <==> e % 2 == 1) && (e & 2 != 0 <==> e / 2 % 2 == 1) && (i & 2 != 0 <==> i / 2 % 2 == 1) && (i
        & 4 != 0 <==> i / 4 % 2 == 1)) by (bit_vector);
}

/// Input is taken as far as the 64 bytes of the buffer have room, behind what
/// waits. The guest is interrupted if it wants to be and is not yet told of input.
pub proof fn law_console_input(v: UartView, input: Seq<u8>, n: int)
    requires
        v.wf(),
        !comes_back(v),
        0 <= n <= input.len(),
        v.rx.len() + n <= 64,
        n == input.len() || v.rx.len() + n == 64,
        n > 0,
    ensures
        ({
            let (w, r) = v.after_input(input);
            &&& r is Some
            &&& r->0 == n
            &&& w.rx == v.rx + input.take(n)
            &&& w.out == v.out
            &&& same_settings(v, w)
            &&& w.lsr % 2 == 1
            &&& v.interrupts < u64::MAX ==> w.interrupts == v.interrupts + if v.ier % 2 == 1
                && v.iir / 4 % 2 == 0 {
                1int
            } else {
                0
            }
            &&& v.ier % 2 == 1 ==> w.iir / 4 % 2 == 1
        }),
{
    lemma_bits(v);
    let (l, i) = (v.lsr, v.iir);
    assert((l | 1) % 2 == 1 && ((i & !1u8) | 4) / 4 % 2 == 1) by (bit_vector);
}

/// Input that finds no room, none at all and input while output comes back leave
/// the console as it is.
pub proof fn law_console_input_refused(v: UartView, input: Seq<u8>)
    requires
        v.rx.len() >= 64 || input.len() == 0 || comes_back(v),
    ensures
        v.after_input(input).0 == v,
        v.after_input(input).1 is None <==> v.rx.len() >= 64 && input.len() > 0 && !comes_back(v),
        v.after_input(input).1 is Some ==> v.after_input(input).1->0 == 0,
{
    lemma_bits(v);
}

/// The data register gives the byte that has waited longest, which then waits no
/// more; with the last one the line says that none is left.
pub proof fn law_console_data(v: UartView)
    requires
        v.wf(),
        !shows_divisor(v),
    ensures
        ({
            let (w, b) = v.after_read(0);
            &&& v.rx.len() > 0 ==> b == v.rx[0] && w.rx == v.rx.skip(1)
            &&& v.rx.len() == 0 ==> b == 0 && w.rx == v.rx
            &&& (w.lsr % 2 == 1) == (w.rx.len() > 0)
            &&& w.lsr / 2 == v.lsr / 2
            &&& w.iir / 4 % 2 == 0
            &&& w.out == v.out
            &&& w.interrupts == v.interrupts
            &&& same_settings(v, w)
        }),
{
    lemma_bits(v);
    let (l, i) = (v.lsr, v.iir);
    assert((l & !1u8) % 2 == 0 && (l & !1u8) / 2 == l / 2 && (l & 1 != 0 <==> l % 2 == 1) && (i
        & !4u8) / 4 % 2 == 0) by (bit_vector);
}

/// A byte written to the data register is output, or comes back as input, or is the
/// low byte of the divisor. The guest is interrupted after output if it wants to be
/// and is not yet told.
pub proof fn law_console_output(v: UartView, b: u8)
    requires
        v.wf(),
        v.interrupts < u64::MAX,
    ensures
        ({
            let w = v.after_write(0, b);
            &&& shows_divisor(v) ==> w == (UartView { dll: b, ..v })
            &&& !shows_divisor(v) ==> same_settings(v, w)
            &&& !shows_divisor(v) && !comes_back(v) ==> {
                &&& w.out == v.out.push(b)
                &&& w.rx == v.rx
                &&& w.lsr == v.lsr
                &&& w.interrupts == v.interrupts + if v.ier / 2 % 2 == 1 && v.iir / 2 % 2 == 0 {
                    1int
                } else {
                    0
                }
            }
            &&& !shows_divisor(v) && comes_back(v) ==> {
                &&& w.out == v.out
                &&& w.rx == if v.rx.len() < 64 {
                    v.rx.push(b)
                } else {
                    v.rx
                }
            }
        }),
{
    lemma_bits(v);
    assert(v.rx + seq![b] =~= v.rx.push(b));
}

/// The other registers of a console hold what was written to them and change
/// nothing else. Only the lower four interrupts can be wanted, and what is pending
/// is told once.
pub proof fn law_console_registers(v: UartView, b: u8)
    ensures
        shows_divisor(v) ==> v.after_write(1, b) == (UartView { dlh: b, ..v }),
        !shows_divisor(v) ==> v.after_write(1, b) == (UartView { ier: b % 16, ..v }),
        v.after_write(3, b) == (UartView { lcr: b, ..v }),
        v.after_write(4, b) == (UartView { mcr: b, ..v }),
        v.after_write(7, b) == (UartView { scr: b, ..v }),
        v.after_write(2, b) == v,
        v.after_write(5, b) == v,
        v.after_write(6, b) == v,
        shows_divisor(v) ==> v.after_read(0) == (v, v.dll),
        shows_divisor(v) ==> v.after_read(1) == (v, v.dlh),
        !shows_divisor(v) ==> v.after_read(1) == (v, v.ier),
        v.after_read(2).0 == (UartView { iir: 1, ..v }),
        v.iir < 0x40 ==> v.after_read(2).1 == 0xc0 + v.iir,
        v.after_read(3) == (v, v.lcr),
        v.after_read(4) == (v, v.mcr),
        v.after_read(5) == (v, v.lsr),
        v.after_read(6) == (v, v.msr),
        v.after_read(7) == (v, v.scr),
{
    lemma_bits(v);
    let i = v.iir;
    assert(b & 0x0f == b % 16 && (i < 0x40 ==> i | 0xc0 == 0xc0 + i)) by (bit_vector);
}

/// A PL011 puts the low byte of what is written to its data register out, and
/// nothing else is put out.
pub proof fn law_pl011_output(v: Pl011View, offset: u64, value: u32)
    ensures
        v.after_write(0, value).out == v.out.push((value % 256) as u8),
        offset != 0 ==> v.after_write(offset, value).out == v.out,
        v.after_write(0, value) == (Pl011View { out: v.after_write(0, value).out, ..v }),
{
}

/// The registers of a PL011 hold what was written to them, the fraction of its
/// divisor its six bits, and change nothing else. Interrupts are shown as far as
/// they are wanted, and cleared by their bits.
pub proof fn law_pl011_registers(v: Pl011View, value: u32)
    ensures
        v.after_write(0x24, value) == (Pl011View { int_baud: value, ..v }),
        v.after_write(0x28, value) == (Pl011View { frac_baud: value % 64, ..v }),
        v.after_write(0x2c, value) == (Pl011View { line_control: value, ..v }),
        v.after_write(0x30, value) == (Pl011View { control: value, ..v }),
        v.after_write(0x34, value) == (Pl011View { ifls: value, ..v }),
        v.after_write(0x38, value) == (Pl011View { int_mask: value, ..v }),
        v.after_write(0x44, value) == (Pl011View { raw_int_status: v.raw_int_status & !value, ..v }),
        v.register(0x18) == 0x90,
        v.register(0x24) == v.int_baud,
        v.register(0x28) == v.frac_baud,
        v.register(0x2c) == v.line_control,
        v.register(0x30) == v.control,
        v.register(0x34) == v.ifls,
        v.register(0x38) == v.int_mask,
        v.register(0x3c) == v.raw_int_status,
        v.register(0x40) == v.raw_int_status & v.int_mask,
{
    assert(value & 0x3f == value % 64) by (bit_vector);
}

/// An access goes to the device whose range holds its address, at the distance from
/// the start of the range, and to none if no range does.
pub proof fn law_bus_routes(ranges: Seq<BusRange>, addr: u64, i: int)
    requires
        bus::ranges_wf(ranges),
        0 <= i < ranges.len(),
        ranges[i].base <= addr < ranges[i].base + ranges[i].size,
    ensures
        bus::route(ranges, addr) == Some((i, (addr - ranges[i].base) as u64)),
{
    assert(bus::owned_by(ranges, addr, i));
    let k = choose|k: int| bus::owned_by(ranges, addr, k);
    if k < i {
        assert(ranges[k].base + ranges[k].size <= ranges[i].base);
    } else if i < k {
        assert(ranges[i].base + ranges[i].size <= ranges[k].base);
    }
}

/// No device answers where no range is.
pub proof fn law_bus_gaps(ranges: Seq<BusRange>, addr: u64)
    requires
        forall|i: int|
            0 <= i < ranges.len() ==> !((#[trigger] ranges[i]).base <= addr < ranges[i].base
                + ranges[i].size),
    ensures
        bus::route(ranges, addr) is None,
{
    assert forall|i: int| !bus::owned_by(ranges, addr, i) by {
        if 0 <= i < ranges.len() {
            assert(!(ranges[i].base <= addr < ranges[i].base + ranges[i].size));
        }
    }
}

/// A device is registered if and only if its range holds an address and no address
/// of another.
pub proof fn law_bus_registers(ranges: Seq<BusRange>, new: BusRange)
    requires
        bus::ranges_wf(ranges),
    ensures
        bus::registration(ranges, new) is Ok <==> new.size > 0 && forall|i: int, addr: int|
            0 <= i < ranges.len() && new.base <= addr < new.base + new.size ==> !(#[trigger] within(
                ranges[i],
                addr,
            )),
{
    if new.size > 0 && bus::registration(ranges, new) is Err {
        let i = choose|i: int| 0 <= i < ranges.len() && (#[trigger] ranges[i]).overlaps(new);
        let addr = if new.base < ranges[i].base {
            ranges[i].base as int
        } else {
            new.base as int
        };
        assert(ranges[i].size > 0);
        assert(within(ranges[i], addr));
    }
    if bus::registration(ranges, new) is Ok {
        assert forall|i: int, addr: int|
            0 <= i < ranges.len() && new.base <= addr < new.base + new.size implies !(
        #[trigger] within(ranges[i], addr)) by {
            assert(!ranges[i].overlaps(new));
        }
    }
}

/// Whether a range holds an address.
pub open spec fn within(r: BusRange, addr: int) -> bool {
    r.base <= addr < r.base + r.size
}

/// What a guest finds that asks for a register of a device in a slot: the device's
/// number and that of its maker, its interrupt, or zero.
pub proof fn law_pci_devices_are_found(
    v: PciView,
    slot: int,
    register: int,
    dev: PciDevice,
    data: Seq<u8>,
)
    requires
        0 <= slot < 32,
        slot < v.slots.len(),
        v.slots[slot] == Some(dev),
        0 <= register < 64,
        data.len() == 4,
        bytes::le32(data, 0) == 0x8000_0000 + 0x800 * slot + 4 * register,
    ensures
        ({
            let w = v.after_write(0, data);
            let b = w.bytes_at(4, 4);
            &&& w.slots == v.slots
            &&& b.len() == 4
            &&& bytes::le32(b, 0) == if register == 0 {
                0x1_0000 * (0x1040 + dev.device_type.spec_id()) + 0x1af4
            } else if register == 15 {
                dev.irq as int
            } else {
                0
            }
        }),
{
    let w = v.after_write(0, data);
    lemma_address(w.address, slot, register);
    lemma_window(w);
}

/// The parts of the address of a register.
proof fn lemma_address(a: u32, slot: int, register: int)
    requires
        0 <= slot < 32,
        0 <= register < 64,
        a == 0x8000_0000 + 0x800 * slot + 4 * register,
    ensures
        a / 0x8000_0000 == 1,
        a / 0x1_0000 % 0x100 == 0,
        a / 0x100 % 8 == 0,
        a / 0x800 % 32 == slot,
        a % 0x100 / 4 * 4 == 4 * register,
{
    assert(a / 0x800 == 0x10_0000 + slot);
    assert(a / 0x100 == 0x80_0000 + 8 * slot);
    assert(a / 0x1_0000 == 0x8000);
    assert(a % 0x100 == 4 * register);
    assert((0x10_0000 + slot) % 32 == slot);
    assert((0x80_0000 + 8 * slot) % 8 == 0);
}

/// The window shows the register that is selected.
proof fn lemma_window(w: PciView)
    ensures
        w.bytes_at(4, 4).len() == 4,
        bytes::le32(w.bytes_at(4, 4), 0) == w.selected(),
{
    let b = w.bytes_at(4, 4);
    bytes::law_le32_round_trip(w.selected());
    assert(b =~= bytes::le32_bytes(w.selected()));
}

/// What a guest finds in an empty slot: nothing but ones.
pub proof fn law_pci_empty_slots(v: PciView, slot: int, register: int, data: Seq<u8>)
    requires
        0 <= slot < 32,
        slot >= v.slots.len() || v.slots[slot] is None,
        0 <= register < 64,
        data.len() == 4,
        bytes::le32(data, 0) == 0x8000_0000 + 0x800 * slot + 4 * register,
    ensures
        bytes::le32(v.after_write(0, data).bytes_at(4, 4), 0) == 0xffff_ffff,
{
    let w = v.after_write(0, data);
    lemma_address(w.address, slot, register);
    lemma_window(w);
}

} // verus!
