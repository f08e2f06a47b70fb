//! The serial port: a UART 16550 on an I/O bus.
//!
//! The standard COM1 port takes eight ports from `0x3F8` on, with IRQ 4.

use crate::devices::bus::{BusDevice, DeviceState};
use crate::devices::uart::{Uart16550, UartView};
use vstd::prelude::*;

verus! {

/// COM1 I/O port base address.
pub const COM1_PORT_BASE: u16 = 0x3F8;

/// Number of I/O ports of a UART 16550.
pub const COM1_PORT_COUNT: u64 = 8;

/// IRQ number of COM1.
pub const COM1_IRQ: u32 = 4;

/// Kernel console device name of the serial port.
pub const CONSOLE_DEVICE_NAME: &'static str = "ttyS0";

/// Early console kernel parameter: the kernel finds the port by itself.
pub const EARLYCON_PARAM: &'static str = "";

/// What can be told of a UART from outside.
pub open spec fn uart_state(v: UartView) -> DeviceState {
    DeviceState {
        regs: seq![
            v.ier as int,
            v.iir as int,
            v.lcr as int,
            v.mcr as int,
            v.lsr as int,
            v.msr as int,
            v.scr as int,
            v.dll as int,
            v.dlh as int,
            v.interrupts as int,
        ],
        runs: seq![v.rx, v.out],
    }
}

/// What a read on the bus does to a UART and to the data: one byte is read from
/// the register at the offset, and every other access is ignored.
pub open spec fn bus_read(v: UartView, offset: u64, data: Seq<u8>) -> (UartView, Seq<u8>) {
    if data.len() == 1 && offset <= 255 {
        let (w, b) = v.after_read(offset as u8);
        (w, seq![b])
    } else {
        (v, data)
    }
}

/// What a write on the bus does to a UART: one byte is written to the register
/// at the offset, and every other access is ignored.
pub open spec fn bus_write(v: UartView, offset: u64, data: Seq<u8>) -> UartView {
    if data.len() == 1 && offset <= 255 {
        v.after_write(offset as u8, data[0])
    } else {
        v
    }
}

/// A serial port.
#[derive(Debug)]
pub struct SerialDevice {
    inner: Uart16550,
}

impl View for SerialDevice {
    type V = UartView;

    closed spec fn view(&self) -> UartView {
        self.inner@
    }
}

impl SerialDevice {
    /// A serial port after reset.
    #[must_use]
    pub fn new() -> (r: Self)
        ensures
            r@ == UartView::initial(),
    {
        SerialDevice { inner: Uart16550::new() }
    }

    /// Puts a byte of input from the host into the receive FIFO.
    pub fn enqueue_rx(&mut self, byte: u8)
        ensures
            final(self)@ == old(self)@.after_input(seq![byte]).0,
    {
        self.inner.enqueue_rx(byte);
    }

    /// Takes what the guest has sent.
    pub fn take_output(&mut self) -> (r: Vec<u8>)
        ensures
            r@ == old(self)@.out,
            final(self)@ == (UartView { out: Seq::empty(), ..old(self)@ }),
    {
        self.inner.take_output()
    }

    /// Tells how many interrupts were raised.
    #[must_use]
    pub fn interrupt_count(&self) -> (r: u64)
        ensures
            r == self@.interrupts,
    {
        self.inner.interrupt_count()
    }
}

impl BusDevice for SerialDevice {
    open spec fn state(&self) -> DeviceState {
        uart_state(self@)
    }

    open spec fn may_read(
        &self,
        offset: u64,
        data: Seq<u8>,
        after: DeviceState,
        read: Seq<u8>,
    ) -> bool {
        let (w, d) = bus_read(self@, offset, data);
        after == uart_state(w) && read == d
    }

    open spec fn may_write(&self, offset: u64, data: Seq<u8>, after: DeviceState) -> bool {
        after == uart_state(bus_write(self@, offset, data))
    }

    fn read(&mut self, offset: u64, data: &mut [u8])
        ensures
            (final(self)@, final(data)@) == bus_read(old(self)@, offset, old(data)@),
    {
        if data.len() == 1 && offset <= 255 {
            let b = self.inner.read(offset as u8);
            data[0] = b;
            assert(data@ =~= seq![b]);
        }
    }

    fn write(&mut self, offset: u64, data: &[u8])
        ensures
            final(self)@ == bus_write(old(self)@, offset, data@),
    {
        if data.len() == 1 && offset <= 255 {
            self.inner.write(offset as u8, data[0]);
        }
    }
}

/// Two serial ports of which the same can be told are the same.
pub proof fn law_state_tells_all(a: UartView, b: UartView)
    requires
        uart_state(a) == uart_state(b),
    ensures
        a == b,
{
    let x = uart_state(a);
    let y = uart_state(b);
    assert(x.regs[0] == y.regs[0] && x.regs[1] == y.regs[1] && x.regs[2] == y.regs[2] && x.regs[3]
        == y.regs[3] && x.regs[4] == y.regs[4] && x.regs[5] == y.regs[5] && x.regs[6] == y.regs[6]
        && x.regs[7] == y.regs[7] && x.regs[8] == y.regs[8] && x.regs[9] == y.regs[9]);
    assert(x.runs[0] == y.runs[0] && x.runs[1] == y.runs[1]);
    assert(a =~= b);
}

} // verus!
