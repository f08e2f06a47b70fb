//! What guest memory holds and where it ends.

use crate::bytes;
use crate::laws;
use crate::laws::queue;
use crate::memory::{MemView, MemoryError};
use crate::transport::{DescFault, QueueFault, VirtQueue, VirtqDesc};
use vstd::prelude::*;

verus! {

/// Bytes are read if and only if guest memory holds all of them, and as they stand
/// there.
pub proof fn law_reads(m: MemView, addr: u64, len: usize)
    ensures
        m.read(addr, len) is Ok <==> m.base <= addr && addr + len <= m.base + m.data.len(),
        m.read(addr, len) matches Ok(b) ==> b.len() == len && forall|i: int|
            0 <= i < len ==> #[trigger] b[i] == m.data[addr - m.base + i],
        m.read(addr, len) matches Err(e) ==> e == (MemoryError::OutOfBounds { addr, size: len }),
{
}

/// Bytes are written if and only if guest memory has room for all of them. Then they
/// stand there, and nothing else has changed; and nothing at all if not.
pub proof fn law_writes(m: MemView, addr: u64, b: Seq<u8>)
    ensures
        m.write(addr, b).1 is Ok <==> m.base <= addr && addr + b.len() <= m.base + m.data.len(),
        m.write(addr, b).1 is Err ==> m.write(addr, b).0 == m,
        m.write(addr, b).0.base == m.base,
        m.write(addr, b).0.data.len() == m.data.len(),
        m.write(addr, b).1 is Ok ==> forall|a: int|
            m.base <= a < m.end() ==> #[trigger] laws::byte_at(m.write(addr, b).0, a) == if addr
                <= a < addr + b.len() {
                b[a - addr]
            } else {
                laws::byte_at(m, a)
            },
{
}

/// Guest memory holds the bytes of its data from its base on.
pub proof fn law_bytes(m: MemView, i: int)
    requires
        0 <= i < m.data.len(),
    ensures
        laws::byte_at(m, m.base + i) == m.data[i],
        m.end() == m.base + m.data.len(),
{
}

/// A descriptor beyond the end of the table is refused.
pub proof fn law_descriptors_end(m: MemView, q: VirtQueue, i: u16)
    ensures
        i >= q.size <==> q.desc(m, i) == Err::<VirtqDesc, QueueFault>(
            QueueFault::Descriptor(DescFault::IndexOutOfRange { idx: i, size: q.size }),
        ),
{
}

/// A chain that goes on to a descriptor beyond the end of the table is refused.
pub proof fn law_chains_end(m: MemView, q: VirtQueue, head: u16)
    requires
        queue::laid_out(m, q),
        head < q.size,
        queue::goes_on(queue::desc_at(m, q, head as int)),
        queue::desc_at(m, q, head as int).next >= q.size,
    ensures
        q.chain(m, head, 0) is Err,
{
    let d = queue::desc_at(m, q, head as int);
    queue::lemma_desc(m, q, head);
    queue::lemma_flags(d);
    reveal_with_fuel(VirtQueue::chain, 2);
}

/// Numbers in guest memory have their lowest byte first.
pub proof fn law_lowest_byte_first(s: Seq<u8>, i: int)
    ensures
        bytes::le16(s, i) == s[i] + 0x100 * s[i + 1],
        bytes::le32(s, i) == s[i] + 0x100 * s[i + 1] + 0x1_0000 * s[i + 2] + 0x100_0000 * s[i + 3],
        bytes::le64(s, i) == bytes::le32(s, i) + 0x1_0000_0000 * bytes::le32(s, i + 4),
{
}

} // verus!
