//! The ARM PL011 UART.
//!
//! | Offset | Name        | Description                          |
//! |--------|-------------|--------------------------------------|
//! | 0x000  | UARTDR      | Data Register (RX read / TX write)   |
//! | 0x004  | UARTRSR     | Receive Status / Error Clear         |
//! | 0x018  | UARTFR      | Flag Register (read-only status)     |
//! | 0x024  | UARTIBRD    | Integer Baud Rate Divisor            |
//! | 0x028  | UARTFBRD    | Fractional Baud Rate Divisor         |
//! | 0x02C  | UARTLCR_H   | Line Control Register                |
//! | 0x030  | UARTCR      | Control Register                     |
//! | 0x034  | UARTIFLS    | Interrupt FIFO Level Select          |
//! | 0x038  | UARTIMSC    | Interrupt Mask Set/Clear             |
//! | 0x03C  | UARTRIS     | Raw Interrupt Status                 |
//! | 0x040  | UARTMIS     | Masked Interrupt Status              |
//! | 0x044  | UARTICR     | Interrupt Clear Register             |
//! | 0xFE0  | PeriphID0-3 | 0x11, 0x10, 0x14, 0x00, every 4 bytes |
//! | 0xFF0  | CellID0-3   | 0x0D, 0xF0, 0x05, 0xB1, every 4 bytes |
//!
//! What the guest sends is kept until the host takes it. The control and baud
//! rate registers hold values without effect.

use crate::bytes::{self, get_le32, le32_vec};
use crate::devices::bus::{BusDevice, DeviceState};
use vstd::prelude::*;

verus! {

/// Data Register.
pub const UARTDR: u64 = 0x000;

/// Receive Status / Error Clear Register.
pub const UARTRSR: u64 = 0x004;

/// Flag Register.
pub const UARTFR: u64 = 0x018;

/// Integer Baud Rate Divisor.
pub const UARTIBRD: u64 = 0x024;

/// Fractional Baud Rate Divisor.
pub const UARTFBRD: u64 = 0x028;

/// Line Control Register.
pub const UARTLCR_H: u64 = 0x02C;

/// Control Register.
pub const UARTCR: u64 = 0x030;

/// Interrupt FIFO Level Select.
pub const UARTIFLS: u64 = 0x034;

/// Interrupt Mask Set/Clear.
pub const UARTIMSC: u64 = 0x038;

/// Raw Interrupt Status.
pub const UARTRIS: u64 = 0x03C;

/// Masked Interrupt Status.
pub const UARTMIS: u64 = 0x040;

/// Interrupt Clear Register.
pub const UARTICR: u64 = 0x044;

/// Peripheral ID byte 0.
pub const PERIPH_ID0: u64 = 0xFE0;

/// Peripheral ID byte 1.
pub const PERIPH_ID1: u64 = 0xFE4;

/// Peripheral ID byte 2.
pub const PERIPH_ID2: u64 = 0xFE8;

/// Peripheral ID byte 3.
pub const PERIPH_ID3: u64 = 0xFEC;

/// `PrimeCell` ID byte 0.
pub const CELL_ID0: u64 = 0xFF0;

/// `PrimeCell` ID byte 1.
pub const CELL_ID1: u64 = 0xFF4;

/// `PrimeCell` ID byte 2.
pub const CELL_ID2: u64 = 0xFF8;

/// `PrimeCell` ID byte 3.
pub const CELL_ID3: u64 = 0xFFC;

/// UARTFR: both FIFOs are empty, always.
pub const DEFAULT_FLAGS: u32 = 0x90;

/// UARTCR after reset: sending and receiving enabled.
pub const DEFAULT_CONTROL: u32 = 0x0300;

/// UARTIFLS after reset: half full.
pub const DEFAULT_IFLS: u32 = 0x12;

/// Kernel console device name of the UART.
pub const CONSOLE_DEVICE_NAME: &'static str = "ttyAMA0";

/// Early console kernel parameter.
pub const EARLYCON_PARAM: &'static str = "earlycon=pl011,0x09000000";

/// What a PL011 is: its registers, and the bytes that wait for the host.
#[verifier::ext_equal]
pub struct Pl011View {
    pub control: u32,
    pub line_control: u32,
    pub int_baud: u32,
    pub frac_baud: u32,
    pub int_mask: u32,
    pub raw_int_status: u32,
    pub ifls: u32,
    pub out: Seq<u8>,
}

impl Pl011View {
    /// A PL011 after reset.
    pub open spec fn initial() -> Pl011View {
        Pl011View {
            control: DEFAULT_CONTROL,
            line_control: 0,
            int_baud: 0,
            frac_baud: 0,
            int_mask: 0,
            raw_int_status: 0,
            ifls: DEFAULT_IFLS,
            out: Seq::empty(),
        }
    }

    /// The value of the register at an offset; an unknown one is zero.
    pub open spec fn register(self, offset: u64) -> u32 {
        if offset == UARTFR {
            DEFAULT_FLAGS
        } else if offset == UARTIBRD {
            self.int_baud
        } else if offset == UARTFBRD {
            self.frac_baud
        } else if offset == UARTLCR_H {
            self.line_control
        } else if offset == UARTCR {
            self.control
        } else if offset == UARTIFLS {
            self.ifls
        } else if offset == UARTIMSC {
            self.int_mask
        } else if offset == UARTRIS {
            self.raw_int_status
        } else if offset == UARTMIS {
            self.raw_int_status & self.int_mask
        } else if offset == PERIPH_ID0 {
            0x11
        } else if offset == PERIPH_ID1 {
            0x10
        } else if offset == PERIPH_ID2 {
            0x14
        } else if offset == CELL_ID0 {
            0x0D
        } else if offset == CELL_ID1 {
            0xF0
        } else if offset == CELL_ID2 {
            0x05
        } else if offset == CELL_ID3 {
            0xB1
        } else {
            0
        }
    }

    /// What writing the register at an offset does.
    pub open spec fn after_write(self, offset: u64, value: u32) -> Pl011View {
        if offset == UARTDR {
            Pl011View { out: self.out.push((value % 256) as u8), ..self }
        } else if offset == UARTIBRD {
            Pl011View { int_baud: value, ..self }
        } else if offset == UARTFBRD {
            Pl011View { frac_baud: value & 0x3F, ..self }
        } else if offset == UARTLCR_H {
            Pl011View { line_control: value, ..self }
        } else if offset == UARTCR {
            Pl011View { control: value, ..self }
        } else if offset == UARTIFLS {
            Pl011View { ifls: value, ..self }
        } else if offset == UARTIMSC {
            Pl011View { int_mask: value, ..self }
        } else if offset == UARTICR {
            Pl011View { raw_int_status: self.raw_int_status & !value, ..self }
        } else {
            self
        }
    }

    /// What can be told of the UART from outside.
    pub open spec fn as_state(self) -> DeviceState {
        DeviceState {
            regs: seq![
                self.control as int,
                self.line_control as int,
                self.int_baud as int,
                self.frac_baud as int,
                self.int_mask as int,
                self.raw_int_status as int,
                self.ifls as int,
            ],
            runs: seq![self.out],
        }
    }
}

/// Data with the first bytes of a register's value, as many as there are.
pub open spec fn overlaid(data: Seq<u8>, value: u32) -> Seq<u8> {
    Seq::new(
        data.len(),
        |i: int|
            if i < 4 {
                bytes::le32_bytes(value)[i]
            } else {
                data[i]
            },
    )
}

/// The value of up to four bytes; missing ones are zero.
pub open spec fn padded(data: Seq<u8>) -> u32 {
    bytes::le32(
        Seq::new(
            4,
            |i: int|
                if i < data.len() {
                    data[i]
                } else {
                    0u8
                },
        ),
        0,
    )
}

/// An ARM PL011 UART.
#[derive(Debug)]
pub struct Pl011 {
    output: Vec<u8>,
    control: u32,
    line_control: u32,
    int_baud: u32,
    frac_baud: u32,
    int_mask: u32,
    raw_int_status: u32,
    ifls: u32,
}

impl View for Pl011 {
    type V = Pl011View;

    closed spec fn view(&self) -> Pl011View {
        Pl011View {
            control: self.control,
            line_control: self.line_control,
            int_baud: self.int_baud,
            frac_baud: self.frac_baud,
            int_mask: self.int_mask,
            raw_int_status: self.raw_int_status,
            ifls: self.ifls,
            out: self.output@,
        }
    }
}

impl Pl011 {
    /// A PL011 after reset.
    #[must_use]
    pub fn new() -> (r: Self)
        ensures
            r@ == Pl011View::initial(),
    {
        let r = Pl011 {
            output: Vec::new(),
            control: DEFAULT_CONTROL,
            line_control: 0,
            int_baud: 0,
            frac_baud: 0,
            int_mask: 0,
            raw_int_status: 0,
            ifls: DEFAULT_IFLS,
        };
        assert(r@ =~= Pl011View::initial());
        r
    }

    /// Takes what the guest has sent.
    pub fn take_output(&mut self) -> (r: Vec<u8>)
        ensures
            r@ == old(self)@.out,
            final(self)@ == (Pl011View { out: Seq::empty(), ..old(self)@ }),
    {
        let mut r: Vec<u8> = Vec::new();
        std::mem::swap(&mut r, &mut self.output);
        r
    }

    /// Reads the register at an offset.
    fn read_register(&self, offset: u64) -> (r: u32)
        ensures
            r == self@.register(offset),
    {
        match offset {
            UARTFR => DEFAULT_FLAGS,
            UARTIBRD => self.int_baud,
            UARTFBRD => self.frac_baud,
            UARTLCR_H => self.line_control,
            UARTCR => self.control,
            UARTIFLS => self.ifls,
            UARTIMSC => self.int_mask,
            UARTRIS => self.raw_int_status,
            UARTMIS => self.raw_int_status & self.int_mask,
            PERIPH_ID0 => 0x11,
            PERIPH_ID1 => 0x10,
            PERIPH_ID2 => 0x14,
            CELL_ID0 => 0x0D,
            CELL_ID1 => 0xF0,
            CELL_ID2 => 0x05,
            CELL_ID3 => 0xB1,
            _ => 0,
        }
    }

    /// Writes the register at an offset.
    fn write_register(&mut self, offset: u64, value: u32)
        ensures
            final(self)@ == old(self)@.after_write(offset, value),
    {
        match offset {
            UARTDR => self.output.push((value % 256) as u8),
            UARTIBRD => self.int_baud = value,
            UARTFBRD => self.frac_baud = value & 0x3F,
            UARTLCR_H => self.line_control = value,
            UARTCR => self.control = value,
            UARTIFLS => self.ifls = value,
            UARTIMSC => self.int_mask = value,
            UARTICR => self.raw_int_status = self.raw_int_status & !value,
            _ => {},
        }
    }
}

impl BusDevice for Pl011 {
    open spec fn state(&self) -> DeviceState {
        self@.as_state()
    }

    open spec fn may_read(
        &self,
        offset: u64,
        data: Seq<u8>,
        after: DeviceState,
        read: Seq<u8>,
    ) -> bool {
        after == self@.as_state() && read == overlaid(data, self@.register(offset))
    }

    open spec fn may_write(&self, offset: u64, data: Seq<u8>, after: DeviceState) -> bool {
        after == self@.after_write(offset, padded(data)).as_state()
    }

    fn read(&mut self, offset: u64, data: &mut [u8])
        ensures
            final(self)@ == old(self)@,
            final(data)@ == overlaid(old(data)@, old(self)@.register(offset)),
    {
        let value = self.read_register(offset);
        let b = le32_vec(value);
        let n: usize = if data.len() < 4 {
            data.len()
        } else {
            4
        };
        let mut i: usize = 0;
        while i < n
            invariant
                i <= n <= 4,
                n <= data@.len(),
                data@.len() == old(data)@.len(),
                b@ == bytes::le32_bytes(value),
                forall|k: int| 0 <= k < i ==> #[trigger] data@[k] == b@[k],
                forall|k: int| i <= k < data@.len() ==> #[trigger] data@[k] == old(data)@[k],
            decreases n - i,
        {
            data[i] = b[i];
            i = i + 1;
        }
        assert(data@ =~= overlaid(old(data)@, value));
    }

    fn write(&mut self, offset: u64, data: &[u8])
        ensures
            final(self)@ == old(self)@.after_write(offset, padded(data@)),
    {
        let mut b: Vec<u8> = Vec::new();
        let ghost want = Seq::new(
            4,
            |i: int|
                if i < data@.len() {
                    data@[i]
                } else {
                    0u8
                },
        );
        let mut i: usize = 0;
        while i < 4
            invariant
                i <= 4,
                b@ == want.take(i as int),
                want == Seq::new(
                    4,
                    |i: int|
                        if i < data@.len() {
                            data@[i]
                        } else {
                            0u8
                        },
                ),
            decreases 4 - i,
        {
            b.push(if i < data.len() {
                data[i]
            } else {
                0
            });
            assert(b@ =~= want.take(i + 1));
            i = i + 1;
        }
        assert(b@ =~= want);
        self.write_register(offset, get_le32(b.as_slice(), 0));
    }
}

/// The line control, the control, the baud rate, the trigger level and the
/// interrupt mask read back as they were written; of the fractional baud rate
/// the lowest six bits.
pub proof fn law_registers_read_back(v: Pl011View, value: u32)
    ensures
        v.after_write(UARTLCR_H, value).register(UARTLCR_H) == value,
        v.after_write(UARTCR, value).register(UARTCR) == value,
        v.after_write(UARTIBRD, value).register(UARTIBRD) == value,
        v.after_write(UARTFBRD, value).register(UARTFBRD) == value & 0x3F,
        v.after_write(UARTIFLS, value).register(UARTIFLS) == value,
        v.after_write(UARTIMSC, value).register(UARTIMSC) == value,
{
}

/// The flags and the identification registers read the same whatever is written.
pub proof fn law_read_only_registers(v: Pl011View, offset: u64, value: u32, at: u64)
    requires
        at == UARTFR || at == PERIPH_ID0 || at == PERIPH_ID1 || at == PERIPH_ID2 || at == PERIPH_ID3
            || at == CELL_ID0 || at == CELL_ID1 || at == CELL_ID2 || at == CELL_ID3,
    ensures
        v.after_write(offset, value).register(at) == v.register(at),
{
}

/// An interrupt that is cleared is not pending.
pub proof fn law_cleared_interrupts(v: Pl011View, value: u32)
    ensures
        v.after_write(UARTICR, value).register(UARTRIS) & value == 0,
{
    let s = v.raw_int_status;
    assert((s & !value) & value == 0) by (bit_vector);
}

} // verus!
