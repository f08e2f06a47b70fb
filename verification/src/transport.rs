//! Virtio queues in guest memory, and what all virtio devices have in common.
//!
//! A queue is three tables in guest memory: the descriptor table, the avail
//! ring that the driver fills, and the used ring that the device fills. Their
//! addresses come from the guest and may be anything. Address arithmetic
//! saturates at the top of the 64-bit address space, where no guest memory
//! lies.

use crate::bytes::{self, get_le16, get_le32, get_le64, le16_vec, le32_vec};
use crate::memory::{GuestMemory, MemView, MemoryError};
use crate::text::{self, push_decimal};
use vstd::prelude::*;

verus! {

/// The descriptor continues in the descriptor named by `next`.
pub const VIRTQ_DESC_F_NEXT: u16 = 1;

/// The buffer is for the device to write (otherwise: to read).
pub const VIRTQ_DESC_F_WRITE: u16 = 2;

/// Kinds of virtio devices.
#[derive(Debug, Clone, Copy, PartialEq, Eq, Structural)]
#[non_exhaustive]
pub enum DeviceType {
    Net,
    Block,
    Rng,
    Balloon,
    Vsock,
    Fs,
}

impl DeviceType {
    /// The device number that the virtio standard assigns.
    pub open spec fn spec_id(self) -> u16 {
        match self {
            DeviceType::Net => 1,
            DeviceType::Block => 2,
            DeviceType::Rng => 4,
            DeviceType::Balloon => 5,
            DeviceType::Vsock => 19,
            DeviceType::Fs => 26,
        }
    }

    /// The device number that the virtio standard assigns.
    pub fn id(self) -> (r: u16)
        ensures
            r == self.spec_id(),
    {
        match self {
            DeviceType::Net => 1,
            DeviceType::Block => 2,
            DeviceType::Rng => 4,
            DeviceType::Balloon => 5,
            DeviceType::Vsock => 19,
            DeviceType::Fs => 26,
        }
    }
}

/// Errors that a virtio device reports to its transport.
#[derive(Debug, Clone, Copy, PartialEq, Eq, Structural)]
#[non_exhaustive]
pub enum VirtioError {
    /// The device could not be activated or could not go on.
    ActivationFailed,
}

/// One entry of the descriptor table.
#[derive(Debug, Clone, Copy, PartialEq, Eq, Structural)]
pub struct VirtqDesc {
    /// Guest physical address of the buffer.
    pub addr: u64,
    /// Length of the buffer in bytes.
    pub len: u32,
    /// `VIRTQ_DESC_F_*` bits.
    pub flags: u16,
    /// Index of the next descriptor of the chain.
    pub next: u16,
}

impl VirtqDesc {
    pub open spec fn spec_has_next(self) -> bool {
        self.flags & VIRTQ_DESC_F_NEXT != 0
    }

    pub open spec fn spec_writable(self) -> bool {
        self.flags & VIRTQ_DESC_F_WRITE != 0
    }

    /// Whether the chain goes on behind this descriptor.
    pub fn has_next(&self) -> (r: bool)
        ensures
            r == self.spec_has_next(),
    {
        self.flags & VIRTQ_DESC_F_NEXT != 0
    }

    /// Whether the device may write the buffer.
    pub fn is_writable(&self) -> (r: bool)
        ensures
            r == self.spec_writable(),
    {
        self.flags & VIRTQ_DESC_F_WRITE != 0
    }
}

/// What is wrong with a descriptor or a chain of descriptors.
#[derive(Debug, Clone, Copy, PartialEq, Eq, Structural)]
#[non_exhaustive]
pub enum DescFault {
    /// The index is not below the queue's size.
    IndexOutOfRange { idx: u16, size: u16 },
    /// The chain holds more descriptors than the queue.
    Cycle,
    /// The chain holds more descriptors than the queue, seen while storing a status.
    CycleInStatusWrite,
    /// A request header is in a buffer that only the device may write.
    HeaderWritable,
    /// A request header is shorter than 16 bytes.
    HeaderTooSmall,
    /// Nothing follows the request header.
    HeaderUnchained,
    /// The status byte is in a buffer that the device may not write.
    StatusNotWritable,
}

impl DescFault {
    /// The text that describes the fault.
    pub open spec fn spec_text(self) -> Seq<char> {
        match self {
            DescFault::IndexOutOfRange { idx, size } => "descriptor index "@ + text::decimal(idx as nat)
                + " >= queue size "@ + text::decimal(size as nat),
            DescFault::Cycle => "descriptor chain cycle detected"@,
            DescFault::CycleInStatusWrite => "descriptor chain cycle in status write"@,
            DescFault::HeaderWritable => "header descriptor has WRITE flag"@,
            DescFault::HeaderTooSmall => "header too small (need 16 bytes)"@,
            DescFault::HeaderUnchained => "header has no NEXT descriptor"@,
            DescFault::StatusNotWritable => "status descriptor missing WRITE flag"@,
        }
    }

    /// The text that describes the fault.
    pub fn text(&self) -> (r: String)
        ensures
            r@ == self.spec_text(),
    {
        match *self {
            DescFault::IndexOutOfRange { idx, size } => {
                let mut s = "descriptor index ".to_owned();
                push_decimal(&mut s, idx as u64);
                s.append(" >= queue size ");
                push_decimal(&mut s, size as u64);
                s
            },
            DescFault::Cycle => "descriptor chain cycle detected".to_owned(),
            DescFault::CycleInStatusWrite => "descriptor chain cycle in status write".to_owned(),
            DescFault::HeaderWritable => "header descriptor has WRITE flag".to_owned(),
            DescFault::HeaderTooSmall => "header too small (need 16 bytes)".to_owned(),
            DescFault::HeaderUnchained => "header has no NEXT descriptor".to_owned(),
            DescFault::StatusNotWritable => "status descriptor missing WRITE flag".to_owned(),
        }
    }
}

/// Why an access to a queue failed.
#[derive(Debug, Clone, Copy, PartialEq, Eq, Structural)]
pub enum QueueFault {
    /// Guest memory does not hold the accessed bytes.
    Memory(MemoryError),
    /// The descriptors are malformed.
    Descriptor(DescFault),
}

/// Address `n` bytes behind `a`, saturating at the top of the address space.
pub open spec fn addr_plus(a: u64, n: int) -> u64 {
    if a + n > u64::MAX {
        u64::MAX
    } else {
        (a + n) as u64
    }
}

/// `a + b`, or the largest number that fits.
pub open spec fn sat_add(a: u32, b: int) -> u32 {
    if a + b > u32::MAX {
        u32::MAX
    } else {
        (a + b) as u32
    }
}

/// Number of steps from ring index `from` up to ring index `to`.
pub open spec fn ring_distance(from: u16, to: u16) -> nat {
    if to >= from {
        (to - from) as nat
    } else {
        (to - from + 0x1_0000) as nat
    }
}

/// The ring index behind `i`.
pub open spec fn ring_next(i: u16) -> u16 {
    if i == 0xFFFF {
        0
    } else {
        (i + 1) as u16
    }
}

/// One virtqueue as its driver configured it, with the device's positions.
#[derive(Debug, Clone, Copy, PartialEq, Eq, Structural)]
pub struct VirtQueue {
    /// Largest size the device offers.
    pub max_size: u16,
    /// Number of descriptors, as the driver chose it.
    pub size: u16,
    /// Whether the driver has enabled the queue.
    pub ready: bool,
    /// Guest physical address of the descriptor table.
    pub desc_table_addr: u64,
    /// Guest physical address of the avail ring.
    pub avail_ring_addr: u64,
    /// Guest physical address of the used ring.
    pub used_ring_addr: u64,
    /// The next avail ring entry the device takes.
    pub last_avail_idx: u16,
    /// The next used ring entry the device fills.
    pub last_used_idx: u16,
}

impl VirtQueue {
    /// A queue that no driver has configured.
    pub open spec fn spec_new(max_size: u16) -> VirtQueue {
        VirtQueue {
            max_size,
            size: 0,
            ready: false,
            desc_table_addr: 0,
            avail_ring_addr: 0,
            used_ring_addr: 0,
            last_avail_idx: 0,
            last_used_idx: 0,
        }
    }

    /// Whether the device may work on the queue.
    pub open spec fn usable(self) -> bool {
        self.ready && self.size != 0
    }

    /// The queue with both positions moved one entry on.
    pub open spec fn advanced(self) -> VirtQueue {
        VirtQueue {
            last_avail_idx: ring_next(self.last_avail_idx),
            last_used_idx: ring_next(self.last_used_idx),
            ..self
        }
    }

    /// The queue with the positions of `other`.
    pub open spec fn with_positions(self, other: VirtQueue) -> VirtQueue {
        VirtQueue {
            last_avail_idx: other.last_avail_idx,
            last_used_idx: other.last_used_idx,
            ..self
        }
    }

    /// The driver's index into the avail ring: two bytes behind the ring's flags.
    pub open spec fn avail_idx(self, m: MemView) -> Result<u16, MemoryError> {
        match m.read(addr_plus(self.avail_ring_addr, 2), 2) {
            Ok(b) => Ok(bytes::le16(b, 0)),
            Err(e) => Err(e),
        }
    }

    /// The head descriptor in the avail ring entry that the device takes next.
    pub open spec fn avail_head(self, m: MemView) -> Result<u16, MemoryError> {
        match m.read(
            addr_plus(self.avail_ring_addr, 4 + (self.last_avail_idx % self.size) * 2),
            2,
        ) {
            Ok(b) => Ok(bytes::le16(b, 0)),
            Err(e) => Err(e),
        }
    }

    /// Entry `idx` of the descriptor table.
    pub open spec fn desc(self, m: MemView, idx: u16) -> Result<VirtqDesc, QueueFault> {
        if idx >= self.size {
            Err(QueueFault::Descriptor(DescFault::IndexOutOfRange { idx, size: self.size }))
        } else {
            match m.read(addr_plus(self.desc_table_addr, idx * 16), 16) {
                Ok(b) => Ok(
                    VirtqDesc {
                        addr: bytes::le64(b, 0),
                        len: bytes::le32(b, 8),
                        flags: bytes::le16(b, 12),
                        next: bytes::le16(b, 14),
                    },
                ),
                Err(e) => Err(QueueFault::Memory(e)),
            }
        }
    }

    /// The descriptors of the chain that starts at `idx`, where `visited` were
    /// walked before it.
    pub open spec fn chain(self, m: MemView, idx: u16, visited: nat) -> Result<
        Seq<VirtqDesc>,
        QueueFault,
    >
        decreases self.size + 1 - visited,
    {
        match self.desc(m, idx) {
            Err(f) => Err(f),
            Ok(d) => if visited + 1 > self.size {
                Err(QueueFault::Descriptor(DescFault::Cycle))
            } else if !d.spec_has_next() {
                Ok(seq![d])
            } else {
                match self.chain(m, d.next, visited + 1) {
                    Ok(rest) => Ok(seq![d] + rest),
                    Err(f) => Err(f),
                }
            },
        }
    }

    /// Where the used ring entry lies that the device fills next.
    pub open spec fn used_addr(self) -> u64 {
        addr_plus(self.used_ring_addr, 4 + (self.last_used_idx % self.size) * 8)
    }

    /// Fills the next used ring entry: the head of a chain, and how many bytes
    /// the device wrote into it.
    pub open spec fn put_used(self, m: MemView, head: u16, written: u32) -> (
        MemView,
        Result<(), MemoryError>,
    ) {
        let (m1, r1) = m.write(self.used_addr(), bytes::le32_bytes(head as u32));
        match r1 {
            Err(e) => (m1, Err(e)),
            Ok(_) => m1.write(addr_plus(self.used_addr(), 4), bytes::le32_bytes(written)),
        }
    }

    /// Shows the driver how far the used ring is filled.
    pub open spec fn put_used_idx(self, m: MemView) -> (MemView, Result<(), MemoryError>) {
        m.write(addr_plus(self.used_ring_addr, 2), bytes::le16_bytes(self.last_used_idx))
    }

    /// Creates a queue that no driver has configured.
    pub fn new(max_size: u16) -> (q: Self)
        ensures
            q == Self::spec_new(max_size),
    {
        VirtQueue {
            max_size,
            size: 0,
            ready: false,
            desc_table_addr: 0,
            avail_ring_addr: 0,
            used_ring_addr: 0,
            last_avail_idx: 0,
            last_used_idx: 0,
        }
    }

    /// Forgets all that the driver configured.
    pub fn reset(&mut self)
        ensures
            *final(self) == Self::spec_new(old(self).max_size),
    {
        *self = VirtQueue::new(self.max_size);
    }

    /// Whether the device may work on the queue.
    pub fn is_usable(&self) -> (r: bool)
        ensures
            r == self.usable(),
    {
        self.ready && self.size != 0
    }

    /// Moves both positions one entry on.
    pub fn advance(&mut self)
        ensures
            *final(self) == old(self).advanced(),
    {
        self.last_avail_idx = self.last_avail_idx.wrapping_add(1);
        self.last_used_idx = self.last_used_idx.wrapping_add(1);
    }

    /// Reads the driver's index into the avail ring.
    pub fn read_avail_idx(&self, memory: &GuestMemory) -> (r: Result<u16, MemoryError>)
        ensures
            r == self.avail_idx(memory@),
    {
        match memory.read_bytes(self.avail_ring_addr.saturating_add(2), 2) {
            Ok(b) => Ok(get_le16(b.as_slice(), 0)),
            Err(e) => Err(e),
        }
    }

    /// Reads the avail ring entry that the device takes next.
    pub fn read_avail_head(&self, memory: &GuestMemory) -> (r: Result<u16, MemoryError>)
        requires
            self.size != 0,
        ensures
            r == self.avail_head(memory@),
    {
        let offset: u64 = 4 + ((self.last_avail_idx % self.size) as u64) * 2;
        match memory.read_bytes(self.avail_ring_addr.saturating_add(offset), 2) {
            Ok(b) => Ok(get_le16(b.as_slice(), 0)),
            Err(e) => Err(e),
        }
    }

    /// Reads entry `idx` of the descriptor table.
    pub fn read_desc(&self, memory: &GuestMemory, idx: u16) -> (r: Result<VirtqDesc, QueueFault>)
        ensures
            r == self.desc(memory@, idx),
    {
        if idx >= self.size {
            return Err(
                QueueFault::Descriptor(DescFault::IndexOutOfRange { idx, size: self.size }),
            );
        }
        match memory.read_bytes(self.desc_table_addr.saturating_add((idx as u64) * 16), 16) {
            Ok(b) => Ok(
                VirtqDesc {
                    addr: get_le64(b.as_slice(), 0),
                    len: get_le32(b.as_slice(), 8),
                    flags: get_le16(b.as_slice(), 12),
                    next: get_le16(b.as_slice(), 14),
                },
            ),
            Err(e) => Err(QueueFault::Memory(e)),
        }
    }

    /// Reads all descriptors of the chain that starts at `head`.
    pub fn read_chain(&self, memory: &GuestMemory, head: u16) -> (r: Result<
        Vec<VirtqDesc>,
        QueueFault,
    >)
        ensures
            match r {
                Ok(v) => v@.len() > 0 && self.chain(memory@, head, 0) == Ok::<
                    Seq<VirtqDesc>,
                    QueueFault,
                >(v@),
                Err(f) => self.chain(memory@, head, 0) == Err::<Seq<VirtqDesc>, QueueFault>(f),
            },
    {
        let mut chain: Vec<VirtqDesc> = Vec::new();
        let mut idx: u16 = head;
        let mut visited: u32 = 0;
        loop
            invariant
                visited <= self.size,
                visited == chain@.len(),
                match self.chain(memory@, idx, visited as nat) {
                    Ok(rest) => self.chain(memory@, head, 0) == Ok::<Seq<VirtqDesc>, QueueFault>(
                        chain@ + rest,
                    ),
                    Err(f) => self.chain(memory@, head, 0) == Err::<Seq<VirtqDesc>, QueueFault>(f),
                },
            decreases self.size + 1 - visited,
        {
            let desc = match self.read_desc(memory, idx) {
                Ok(d) => d,
                Err(f) => return Err(f),
            };
            let ghost before = chain@;
            chain.push(desc);
            visited = visited + 1;
            if visited > self.size as u32 {
                return Err(QueueFault::Descriptor(DescFault::Cycle));
            }
            if !desc.has_next() {
                assert(before + seq![desc] =~= chain@);
                return Ok(chain);
            }
            proof {
                match self.chain(memory@, desc.next, visited as nat) {
                    Ok(rest) => {
                        assert(before + (seq![desc] + rest) =~= chain@ + rest);
                    },
                    Err(_) => {},
                }
            }
            idx = desc.next;
        }
    }

    /// Fills the next used ring entry.
    pub fn write_used(&self, memory: &mut GuestMemory, head: u16, written: u32) -> (r: Result<
        (),
        MemoryError,
    >)
        requires
            self.size != 0,
        ensures
            (final(memory)@, r) == self.put_used(old(memory)@, head, written),
    {
        let offset: u64 = 4 + ((self.last_used_idx % self.size) as u64) * 8;
        let addr: u64 = self.used_ring_addr.saturating_add(offset);
        match memory.write_bytes(addr, le32_vec(head as u32).as_slice()) {
            Ok(_) => {},
            Err(e) => return Err(e),
        }
        memory.write_bytes(addr.saturating_add(4), le32_vec(written).as_slice())
    }

    /// Shows the driver how far the used ring is filled.
    pub fn write_used_idx(&self, memory: &mut GuestMemory) -> (r: Result<(), MemoryError>)
        ensures
            (final(memory)@, r) == self.put_used_idx(old(memory)@),
    {
        memory.write_bytes(
            self.used_ring_addr.saturating_add(2),
            le16_vec(self.last_used_idx).as_slice(),
        )
    }
}

/// A chain that can be read holds at least one descriptor and no more than the
/// queue: all but its last continue, and the last does not.
pub proof fn law_chain_shape(q: VirtQueue, m: MemView, idx: u16, visited: nat)
    requires
        q.chain(m, idx, visited) is Ok,
    ensures
        ({
            let c = q.chain(m, idx, visited)->Ok_0;
            &&& 1 <= c.len()
            &&& visited + c.len() <= q.size
            &&& forall|i: int| 0 <= i < c.len() - 1 ==> (#[trigger] c[i]).spec_has_next()
            &&& !c.last().spec_has_next()
        }),
    decreases q.size + 1 - visited,
{
    let d = q.desc(m, idx)->Ok_0;
    if d.spec_has_next() {
        law_chain_shape(q, m, d.next, visited + 1);
        let rest = q.chain(m, d.next, visited + 1)->Ok_0;
        let c = q.chain(m, idx, visited)->Ok_0;
        assert(c =~= seq![d] + rest);
        assert forall|i: int| 0 <= i < c.len() - 1 implies (#[trigger] c[i]).spec_has_next() by {
            if i > 0 {
                assert(c[i] == rest[i - 1]);
            }
        }
        assert(c.last() == rest.last());
    }
}

/// Byte `i` of a configuration space, which is zero behind its end.
pub open spec fn config_byte(config: Seq<u8>, i: int) -> u8 {
    if 0 <= i < config.len() {
        config[i]
    } else {
        0
    }
}

/// Reads a configuration space from `offset` on into `data`.
pub fn read_config_space(config: &[u8], offset: u64, data: &mut [u8])
    ensures
        final(data)@ == Seq::new(
            old(data)@.len(),
            |i: int| config_byte(config@, offset + i),
        ),
{
    let n: usize = data.len();
    let mut i: usize = 0;
    while i < n
        invariant
            i <= n,
            n == data@.len(),
            data@.len() == old(data)@.len(),
            forall|k: int| 0 <= k < i ==> #[trigger] data@[k] == config_byte(config@, offset + k),
        decreases n - i,
    {
        let pos: u64 = offset.saturating_add(i as u64);
        let b: u8 = if pos < config.len() as u64 && offset <= u64::MAX - i as u64 {
            config[pos as usize]
        } else {
            0
        };
        data[i] = b;
        i = i + 1;
    }
    assert(data@ =~= Seq::new(old(data)@.len(), |i: int| config_byte(config@, offset + i)));
}

/// The position `i` bytes behind `offset` for a device that counts on from the
/// highest position to the first. Offsets that are no position count as the
/// highest.
pub open spec fn round_position(offset: u64, i: int) -> int {
    let start = if offset > usize::MAX {
        usize::MAX as int
    } else {
        offset as int
    };
    if start + i <= usize::MAX {
        start + i
    } else {
        start + i - usize::MAX - 1
    }
}

/// Reads a configuration space from `offset` on into `data`, counting on from
/// the highest position to the first.
pub fn read_config_round(config: &[u8], offset: u64, data: &mut [u8])
    ensures
        final(data)@ == Seq::new(
            old(data)@.len(),
            |i: int| config_byte(config@, round_position(offset, i)),
        ),
{
    let n: usize = data.len();
    let start: usize = if offset > usize::MAX as u64 {
        usize::MAX
    } else {
        offset as usize
    };
    let mut i: usize = 0;
    while i < n
        invariant
            i <= n,
            n == data@.len(),
            data@.len() == old(data)@.len(),
            start == round_position(offset, 0),
            forall|k: int|
                0 <= k < i ==> #[trigger] data@[k] == config_byte(
                    config@,
                    round_position(offset, k),
                ),
        decreases n - i,
    {
        let pos: usize = start.wrapping_add(i);
        assert(pos == round_position(offset, i as int));
        data[i] = if pos < config.len() {
            config[pos]
        } else {
            0
        };
        i = i + 1;
    }
    assert(data@ =~= Seq::new(
        old(data)@.len(),
        |i: int| config_byte(config@, round_position(offset, i)),
    ));
}

/// Moving one entry on brings a ring index one step nearer.
pub proof fn lemma_ring_step(from: u16, to: u16)
    requires
        from != to,
    ensures
        ring_distance(ring_next(from), to) + 1 == ring_distance(from, to),
{
}

} // verus!
