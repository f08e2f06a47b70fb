//! A UART 16550.
//!
//! | Offset | DLAB=0 Read | DLAB=0 Write | DLAB=1 R/W |
//! |--------|-------------|--------------|------------|
//! | 0 | RBR | THR | DLL |
//! | 1 | IER | IER | DLH |
//! | 2 | IIR | FCR | IIR/FCR |
//! | 3 | LCR | LCR | LCR |
//! | 4 | MCR | MCR | MCR |
//! | 5 | LSR | - | LSR |
//! | 6 | MSR | - | MSR |
//! | 7 | SCR | SCR | SCR |
//!
//! Interrupt identification bits are added when a condition arises and deleted
//! when it is gone; the bit for "none" is set only when no other is. What the
//! guest sends is kept until the host takes it, and the interrupts are counted.

use std::collections::VecDeque;
use vstd::prelude::*;

verus! {

/// Offset of RBR and THR, or of DLL.
pub const DATA_OFFSET: u8 = 0;

/// Offset of IER, or of DLH.
pub const IER_OFFSET: u8 = 1;

/// Offset of IIR and FCR.
pub const IIR_OFFSET: u8 = 2;

/// Offset of LCR.
pub const LCR_OFFSET: u8 = 3;

/// Offset of MCR.
pub const MCR_OFFSET: u8 = 4;

/// Offset of LSR.
pub const LSR_OFFSET: u8 = 5;

/// Offset of MSR.
pub const MSR_OFFSET: u8 = 6;

/// Offset of SCR.
pub const SCR_OFFSET: u8 = 7;

/// Size of the receive FIFO.
pub const FIFO_SIZE: usize = 0x40;

/// IER: received data available.
pub const IER_RDA_BIT: u8 = 0x01;

/// IER: THR empty.
pub const IER_THR_EMPTY_BIT: u8 = 0x02;

/// IER: the bits that there are.
pub const IER_VALID_BITS: u8 = 0x0F;

/// IIR: the FIFOs are enabled.
pub const IIR_FIFO_BITS: u8 = 0xC0;

/// IIR: no interrupt is pending.
pub const IIR_NONE_BIT: u8 = 0x01;

/// IIR: THR empty.
pub const IIR_THR_EMPTY_BIT: u8 = 0x02;

/// IIR: received data available.
pub const IIR_RDA_BIT: u8 = 0x04;

/// LCR: the divisor latch is accessible.
pub const LCR_DLAB_BIT: u8 = 0x80;

/// LSR: data is ready.
pub const LSR_DATA_READY_BIT: u8 = 0x01;

/// LSR: THR is empty.
pub const LSR_EMPTY_THR_BIT: u8 = 0x20;

/// LSR: the line is idle.
pub const LSR_IDLE_BIT: u8 = 0x40;

/// MCR: loopback.
pub const MCR_LOOP_BIT: u8 = 0x10;

/// MCR: OUT2.
pub const MCR_OUT2_BIT: u8 = 0x08;

/// Initial IER.
pub const DEFAULT_INTERRUPT_ENABLE: u8 = 0x00;

/// Initial IIR.
pub const DEFAULT_INTERRUPT_IDENTIFICATION: u8 = 0x01;

/// Initial LSR: THR empty and the line idle.
pub const DEFAULT_LINE_STATUS: u8 = 0x60;

/// Initial LCR: eight bits.
pub const DEFAULT_LINE_CONTROL: u8 = 0x03;

/// Initial MCR: OUT2.
pub const DEFAULT_MODEM_CONTROL: u8 = 0x08;

/// Initial MSR: DSR, CTS and DCD.
pub const DEFAULT_MODEM_STATUS: u8 = 0xB0;

/// Initial DLL.
pub const DEFAULT_BAUD_DIVISOR_LOW: u8 = 0x0C;

/// Initial DLH.
pub const DEFAULT_BAUD_DIVISOR_HIGH: u8 = 0x00;

/// What a UART is: its registers, the bytes that wait for the guest, the bytes
/// that wait for the host, and how many interrupts were raised.
#[verifier::ext_equal]
pub struct UartView {
    pub ier: u8,
    pub iir: u8,
    pub lcr: u8,
    pub mcr: u8,
    pub lsr: u8,
    pub msr: u8,
    pub scr: u8,
    pub dll: u8,
    pub dlh: u8,
    pub rx: Seq<u8>,
    pub out: Seq<u8>,
    pub interrupts: u64,
}

impl UartView {
    /// A UART after reset.
    pub open spec fn initial() -> UartView {
        UartView {
            ier: DEFAULT_INTERRUPT_ENABLE,
            iir: DEFAULT_INTERRUPT_IDENTIFICATION,
            lcr: DEFAULT_LINE_CONTROL,
            mcr: DEFAULT_MODEM_CONTROL,
            lsr: DEFAULT_LINE_STATUS,
            msr: DEFAULT_MODEM_STATUS,
            scr: 0,
            dll: DEFAULT_BAUD_DIVISOR_LOW,
            dlh: DEFAULT_BAUD_DIVISOR_HIGH,
            rx: Seq::empty(),
            out: Seq::empty(),
            interrupts: 0,
        }
    }

    /// Whether the divisor latch is accessible.
    pub open spec fn dlab(self) -> bool {
        self.lcr & LCR_DLAB_BIT != 0
    }

    /// Whether what is sent is received.
    pub open spec fn loops(self) -> bool {
        self.mcr & MCR_LOOP_BIT != 0
    }

    /// Raises an interrupt, if it is enabled and not pending yet.
    pub open spec fn raised(self, enable_bit: u8, bit: u8) -> UartView {
        if self.ier & enable_bit != 0 && self.iir & bit == 0 {
            UartView {
                iir: (self.iir & !IIR_NONE_BIT) | bit,
                interrupts: if self.interrupts < u64::MAX {
                    (self.interrupts + 1) as u64
                } else {
                    u64::MAX
                },
                ..self
            }
        } else {
            self
        }
    }

    /// Puts bytes into the receive FIFO.
    pub open spec fn received(self, bytes: Seq<u8>) -> UartView {
        UartView {
            rx: self.rx + bytes,
            lsr: self.lsr | LSR_DATA_READY_BIT,
            ..self
        }.raised(IER_RDA_BIT, IIR_RDA_BIT)
    }

    /// Takes a byte out of the receive FIFO; there is a zero if it is empty.
    pub open spec fn data_read(self) -> (UartView, u8) {
        let iir = self.iir & !IIR_RDA_BIT;
        let rx = if self.rx.len() > 0 {
            self.rx.skip(1)
        } else {
            self.rx
        };
        (
            UartView {
                iir: if iir == 0 {
                    IIR_NONE_BIT
                } else {
                    iir
                },
                rx,
                lsr: if rx.len() == 0 {
                    self.lsr & !LSR_DATA_READY_BIT
                } else {
                    self.lsr
                },
                ..self
            },
            if self.rx.len() > 0 {
                self.rx[0]
            } else {
                0
            },
        )
    }

    /// What reading a register does and gives.
    pub open spec fn after_read(self, offset: u8) -> (UartView, u8) {
        if offset == DATA_OFFSET {
            if self.dlab() {
                (self, self.dll)
            } else {
                self.data_read()
            }
        } else if offset == IER_OFFSET {
            (self, if self.dlab() {
                self.dlh
            } else {
                self.ier
            })
        } else if offset == IIR_OFFSET {
            (
                UartView { iir: DEFAULT_INTERRUPT_IDENTIFICATION, ..self },
                self.iir | IIR_FIFO_BITS,
            )
        } else if offset == LCR_OFFSET {
            (self, self.lcr)
        } else if offset == MCR_OFFSET {
            (self, self.mcr)
        } else if offset == LSR_OFFSET {
            (self, self.lsr)
        } else if offset == MSR_OFFSET {
            (self, self.msr)
        } else if offset == SCR_OFFSET {
            (self, self.scr)
        } else {
            (self, 0)
        }
    }

    /// What sending a byte does.
    pub open spec fn data_written(self, value: u8) -> UartView {
        if self.loops() {
            if self.rx.len() < FIFO_SIZE {
                self.received(seq![value])
            } else {
                self
            }
        } else {
            UartView { out: self.out.push(value), ..self }.raised(
                IER_THR_EMPTY_BIT,
                IIR_THR_EMPTY_BIT,
            )
        }
    }

    /// What writing a register does.
    pub open spec fn after_write(self, offset: u8, value: u8) -> UartView {
        if offset == DATA_OFFSET {
            if self.dlab() {
                UartView { dll: value, ..self }
            } else {
                self.data_written(value)
            }
        } else if offset == IER_OFFSET {
            if self.dlab() {
                UartView { dlh: value, ..self }
            } else {
                UartView { ier: value & IER_VALID_BITS, ..self }
            }
        } else if offset == LCR_OFFSET {
            UartView { lcr: value, ..self }
        } else if offset == MCR_OFFSET {
            UartView { mcr: value, ..self }
        } else if offset == SCR_OFFSET {
            UartView { scr: value, ..self }
        } else {
            self
        }
    }

    /// What input from the host does, and how many bytes were taken: none of it
    /// in loopback, `None` if the FIFO is full, and otherwise as many as fit.
    pub open spec fn after_input(self, input: Seq<u8>) -> (UartView, Option<usize>) {
        if self.loops() || input.len() == 0 {
            (self, Some(0))
        } else if self.rx.len() >= FIFO_SIZE {
            (self, None)
        } else {
            let room = FIFO_SIZE - self.rx.len();
            let n = if input.len() < room {
                input.len() as int
            } else {
                room
            };
            (self.received(input.take(n)), Some(n as usize))
        }
    }

    /// What every UART keeps: a FIFO that is not overfull, the data-ready bit
    /// exactly while it holds bytes, and the bit for no interrupt exactly while
    /// no other is set.
    pub open spec fn wf(self) -> bool {
        &&& self.rx.len() <= FIFO_SIZE
        &&& (self.lsr & LSR_DATA_READY_BIT != 0) == (self.rx.len() > 0)
        &&& self.iir == 1 || self.iir == 2 || self.iir == 4 || self.iir == 6
    }
}

/// A UART 16550.
#[derive(Debug)]
pub struct Uart16550 {
    interrupt_enable: u8,
    interrupt_identification: u8,
    line_control: u8,
    modem_control: u8,
    line_status: u8,
    modem_status: u8,
    scratch: u8,
    baud_divisor_low: u8,
    baud_divisor_high: u8,
    in_buffer: VecDeque<u8>,
    output: Vec<u8>,
    interrupts: u64,
}

impl View for Uart16550 {
    type V = UartView;

    closed spec fn view(&self) -> UartView {
        UartView {
            ier: self.interrupt_enable,
            iir: self.interrupt_identification,
            lcr: self.line_control,
            mcr: self.modem_control,
            lsr: self.line_status,
            msr: self.modem_status,
            scr: self.scratch,
            dll: self.baud_divisor_low,
            dlh: self.baud_divisor_high,
            rx: self.in_buffer@,
            out: self.output@,
            interrupts: self.interrupts,
        }
    }
}

impl Uart16550 {
    /// A UART after reset.
    #[must_use]
    pub fn new() -> (r: Self)
        ensures
            r@ == UartView::initial(),
    {
        let r = Uart16550 {
            interrupt_enable: DEFAULT_INTERRUPT_ENABLE,
            interrupt_identification: DEFAULT_INTERRUPT_IDENTIFICATION,
            line_control: DEFAULT_LINE_CONTROL,
            modem_control: DEFAULT_MODEM_CONTROL,
            line_status: DEFAULT_LINE_STATUS,
            modem_status: DEFAULT_MODEM_STATUS,
            scratch: 0,
            baud_divisor_low: DEFAULT_BAUD_DIVISOR_LOW,
            baud_divisor_high: DEFAULT_BAUD_DIVISOR_HIGH,
            in_buffer: VecDeque::new(),
            output: Vec::new(),
            interrupts: 0,
        };
        assert(r@ =~= UartView::initial());
        r
    }

    /// Reads the register at an offset; an unknown one reads as zero.
    #[must_use]
    pub fn read(&mut self, offset: u8) -> (r: u8)
        ensures
            (final(self)@, r) == old(self)@.after_read(offset),
    {
        if offset == DATA_OFFSET {
            if self.is_dlab_set() {
                self.baud_divisor_low
            } else {
                self.read_rbr()
            }
        } else if offset == IER_OFFSET {
            if self.is_dlab_set() {
                self.baud_divisor_high
            } else {
                self.interrupt_enable
            }
        } else if offset == IIR_OFFSET {
            let iir = self.interrupt_identification | IIR_FIFO_BITS;
            self.interrupt_identification = DEFAULT_INTERRUPT_IDENTIFICATION;
            iir
        } else if offset == LCR_OFFSET {
            self.line_control
        } else if offset == MCR_OFFSET {
            self.modem_control
        } else if offset == LSR_OFFSET {
            self.line_status
        } else if offset == MSR_OFFSET {
            self.modem_status
        } else if offset == SCR_OFFSET {
            self.scratch
        } else {
            0
        }
    }

    /// Writes the register at an offset. Others than DLL, DLH, THR, IER, LCR,
    /// MCR and SCR take no value.
    pub fn write(&mut self, offset: u8, value: u8)
        ensures
            final(self)@ == old(self)@.after_write(offset, value),
    {
        if offset == DATA_OFFSET {
            if self.is_dlab_set() {
                self.baud_divisor_low = value;
            } else if self.is_in_loop_mode() {
                if self.in_buffer.len() < FIFO_SIZE {
                    self.in_buffer.push_back(value);
                    self.set_lsr_rda_bit();
                    self.received_data_interrupt();
                    assert(self@ =~= old(self)@.received(seq![value]));
                }
            } else {
                self.output.push(value);
                self.thr_empty_interrupt();
            }
        } else if offset == IER_OFFSET {
            if self.is_dlab_set() {
                self.baud_divisor_high = value;
            } else {
                self.interrupt_enable = value & IER_VALID_BITS;
            }
        } else if offset == LCR_OFFSET {
            self.line_control = value;
        } else if offset == MCR_OFFSET {
            self.modem_control = value;
        } else if offset == SCR_OFFSET {
            self.scratch = value;
        }
    }

    /// Puts input from the host into the receive FIFO. Tells how many bytes it
    /// took, or `None` if it was full.
    pub fn enqueue_raw_bytes(&mut self, input: &[u8]) -> (r: Option<usize>)
        ensures
            (final(self)@, r) == old(self)@.after_input(input@),
    {
        if self.is_in_loop_mode() {
            return Some(0);
        }
        if input.len() == 0 {
            return Some(0);
        }
        let held: usize = self.in_buffer.len();
        if held >= FIFO_SIZE {
            return None;
        }
        let room: usize = FIFO_SIZE - held;
        let count: usize = if input.len() < room {
            input.len()
        } else {
            room
        };
        let ghost before = self@;
        let mut i: usize = 0;
        assert(before.rx + input@.take(0) =~= before.rx);
        while i < count
            invariant
                i <= count <= input@.len(),
                self@ == (UartView { rx: before.rx + input@.take(i as int), ..before }),
            decreases count - i,
        {
            self.in_buffer.push_back(input[i]);
            assert(before.rx + input@.take(i as int).push(input@[i as int]) =~= (before.rx
                + input@.take(i as int)).push(input@[i as int]));
            assert(input@.take(i as int).push(input@[i as int]) =~= input@.take(i + 1));
            i = i + 1;
        }
        self.set_lsr_rda_bit();
        self.received_data_interrupt();
        Some(count)
    }

    /// Puts a byte of input from the host into the receive FIFO, if there is
    /// room.
    pub fn enqueue_rx(&mut self, byte: u8)
        ensures
            final(self)@ == old(self)@.after_input(seq![byte]).0,
    {
        let one: [u8; 1] = [byte];
        assert(one@ =~= seq![byte]);
        let _ = self.enqueue_raw_bytes(one.as_slice());
    }

    /// Tells how many bytes the receive FIFO can take.
    #[must_use]
    pub fn fifo_capacity(&self) -> (r: usize)
        ensures
            r == if self@.rx.len() <= FIFO_SIZE {
                FIFO_SIZE - self@.rx.len()
            } else {
                0
            },
    {
        FIFO_SIZE.saturating_sub(self.in_buffer.len())
    }

    /// Takes what the guest has sent.
    pub fn take_output(&mut self) -> (r: Vec<u8>)
        ensures
            r@ == old(self)@.out,
            final(self)@ == (UartView { out: Seq::empty(), ..old(self)@ }),
    {
        let mut r: Vec<u8> = Vec::new();
        std::mem::swap(&mut r, &mut self.output);
        r
    }

    /// Tells how many interrupts were raised.
    #[must_use]
    pub fn interrupt_count(&self) -> (r: u64)
        ensures
            r == self@.interrupts,
    {
        self.interrupts
    }

    /// Tells which interrupts are pending.
    #[must_use]
    pub fn interrupt_identification(&self) -> (r: u8)
        ensures
            r == self@.iir,
    {
        self.interrupt_identification
    }

    fn is_dlab_set(&self) -> (r: bool)
        ensures
            r == self@.dlab(),
    {
        (self.line_control & LCR_DLAB_BIT) != 0
    }

    fn is_in_loop_mode(&self) -> (r: bool)
        ensures
            r == self@.loops(),
    {
        (self.modem_control & MCR_LOOP_BIT) != 0
    }

    fn set_lsr_rda_bit(&mut self)
        ensures
            final(self)@ == (UartView { lsr: old(self)@.lsr | LSR_DATA_READY_BIT, ..old(self)@ }),
    {
        self.line_status = self.line_status | LSR_DATA_READY_BIT;
    }

    fn add_interrupt(&mut self, bit: u8)
        ensures
            final(self)@ == (UartView {
                iir: (old(self)@.iir & !IIR_NONE_BIT) | bit,
                interrupts: if old(self)@.interrupts < u64::MAX {
                    (old(self)@.interrupts + 1) as u64
                } else {
                    u64::MAX
                },
                ..old(self)@
            }),
    {
        self.interrupt_identification = (self.interrupt_identification & !IIR_NONE_BIT) | bit;
        self.interrupts = self.interrupts.saturating_add(1);
    }

    fn thr_empty_interrupt(&mut self)
        ensures
            final(self)@ == old(self)@.raised(IER_THR_EMPTY_BIT, IIR_THR_EMPTY_BIT),
    {
        if (self.interrupt_enable & IER_THR_EMPTY_BIT) != 0 && (self.interrupt_identification
            & IIR_THR_EMPTY_BIT) == 0 {
            self.add_interrupt(IIR_THR_EMPTY_BIT);
        }
    }

    fn received_data_interrupt(&mut self)
        ensures
            final(self)@ == old(self)@.raised(IER_RDA_BIT, IIR_RDA_BIT),
    {
        if (self.interrupt_enable & IER_RDA_BIT) != 0 && (self.interrupt_identification
            & IIR_RDA_BIT) == 0 {
            self.add_interrupt(IIR_RDA_BIT);
        }
    }

    fn del_interrupt(&mut self, bit: u8)
        ensures
            final(self)@ == (UartView {
                iir: if old(self)@.iir & !bit == 0 {
                    IIR_NONE_BIT
                } else {
                    old(self)@.iir & !bit
                },
                ..old(self)@
            }),
    {
        self.interrupt_identification = self.interrupt_identification & !bit;
        if self.interrupt_identification == 0 {
            self.interrupt_identification = IIR_NONE_BIT;
        }
    }

    fn read_rbr(&mut self) -> (r: u8)
        ensures
            (final(self)@, r) == old(self)@.data_read(),
    {
        self.del_interrupt(IIR_RDA_BIT);
        let byte: u8 = match self.in_buffer.pop_front() {
            Some(b) => b,
            None => 0,
        };
        if self.in_buffer.len() == 0 {
            self.line_status = self.line_status & !LSR_DATA_READY_BIT;
        }
        assert(self@.rx =~= old(self)@.data_read().0.rx);
        byte
    }
}

proof fn lemma_status_bits(x: u8)
    ensures
        (x | LSR_DATA_READY_BIT) & LSR_DATA_READY_BIT != 0,
        (x & !LSR_DATA_READY_BIT) & LSR_DATA_READY_BIT == 0,
{
    assert((x | 0x01u8) & 0x01u8 != 0 && (x & !0x01u8) & 0x01u8 == 0) by (bit_vector);
}

proof fn lemma_pending_bits(x: u8)
    requires
        x == 1 || x == 2 || x == 4 || x == 6,
    ensures
        x & 0x04 == 0 ==> ((x & !0x01u8) | 0x04 == 4 || (x & !0x01u8) | 0x04 == 6),
        x & 0x02 == 0 ==> ((x & !0x01u8) | 0x02 == 2 || (x & !0x01u8) | 0x02 == 6),
        x & !0x04u8 == 0 || x & !0x04u8 == 1 || x & !0x04u8 == 2,
{
    assert(x & 0x04 == 0 ==> ((x & !0x01u8) | 0x04 == 4 || (x & !0x01u8) | 0x04 == 6)) by (bit_vector)
        requires
            x == 1 || x == 2 || x == 4 || x == 6,
    ;
    assert(x & 0x02 == 0 ==> ((x & !0x01u8) | 0x02 == 2 || (x & !0x01u8) | 0x02 == 6)) by (bit_vector)
        requires
            x == 1 || x == 2 || x == 4 || x == 6,
    ;
    assert(x & !0x04u8 == 0 || x & !0x04u8 == 1 || x & !0x04u8 == 2) by (bit_vector)
        requires
            x == 1 || x == 2 || x == 4 || x == 6,
    ;
}

/// A UART after reset keeps what every UART keeps.
pub proof fn law_initial_is_wf()
    ensures
        UartView::initial().wf(),
{
    assert(0x60u8 & 0x01u8 == 0) by (bit_vector);
}

/// Whatever the guest reads and writes and whatever the host puts in, the FIFO
/// is never overfull, the data-ready bit is set exactly while it holds bytes,
/// and the bit for no interrupt exactly while no other is set.
pub proof fn law_invariant_is_kept(v: UartView, offset: u8, value: u8, input: Seq<u8>)
    requires
        v.wf(),
    ensures
        v.after_read(offset).0.wf(),
        v.after_write(offset, value).wf(),
        v.after_input(input).0.wf(),
{
    lemma_pending_bits(v.iir);
    lemma_status_bits(v.lsr);
}

/// Input comes out in order: reading the data register gives the byte that has
/// waited longest, and leaves the others, also those of later input, behind it.
pub proof fn law_input_in_order(v: UartView, input: Seq<u8>)
    requires
        v.wf(),
        !v.dlab(),
        !v.loops(),
        v.rx.len() + input.len() <= FIFO_SIZE,
        input.len() > 0,
    ensures
        ({
            let all = v.rx + input;
            let (w, byte) = v.after_input(input).0.after_read(DATA_OFFSET);
            byte == all[0] && w.rx == all.skip(1)
        }),
{
    assert(input.take(input.len() as int) =~= input);
}

/// What the guest sends reaches the host in order; in loopback nothing does.
pub proof fn law_output_in_order(v: UartView, value: u8)
    requires
        !v.dlab(),
    ensures
        v.after_write(DATA_OFFSET, value).out == if v.loops() {
            v.out
        } else {
            v.out.push(value)
        },
{
}

/// An interrupt that is pending is not raised again, and one that is not
/// enabled is not raised.
pub proof fn law_no_needless_interrupts(v: UartView, offset: u8, value: u8)
    requires
        v.ier & IER_THR_EMPTY_BIT == 0 || v.iir & IIR_THR_EMPTY_BIT != 0,
        v.ier & IER_RDA_BIT == 0 || v.iir & IIR_RDA_BIT != 0,
    ensures
        v.after_write(offset, value).interrupts == v.interrupts,
        v.after_read(offset).0.interrupts == v.interrupts,
{
}

/// The scratch register, the line control and the modem control read back as
/// they were written.
pub proof fn law_registers_read_back(v: UartView, value: u8)
    ensures
        v.after_write(SCR_OFFSET, value).after_read(SCR_OFFSET).1 == value,
        v.after_write(LCR_OFFSET, value).after_read(LCR_OFFSET).1 == value,
        v.after_write(MCR_OFFSET, value).after_read(MCR_OFFSET).1 == value,
{
}

} // verus!
