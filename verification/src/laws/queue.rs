//! How a device reads what the driver queued and tells it what was done, in terms
//! of the bytes of the rings.

use crate::laws;
use crate::memory::{MemView, MemoryError};
use crate::transport::{self, QueueFault, VirtQueue, VirtqDesc};
use vstd::prelude::*;

verus! {

/// The ring index `k` places behind `start`.
pub open spec fn ring_index(start: u16, k: int) -> int {
    (start + k) % 0x1_0000
}

/// How many chains the driver has queued that the device has not taken.
pub open spec fn waiting(m: MemView, q: VirtQueue) -> int {
    (laws::u16_at(m, q.avail_ring_addr + 2) - q.last_avail_idx) % 0x1_0000
}

/// The head of the `k`-th of these chains.
#[verifier::opaque]
pub open spec fn head_at(m: MemView, q: VirtQueue, k: int) -> int {
    laws::u16_at(
        m,
        q.avail_ring_addr + 4 + 2 * (ring_index(q.last_avail_idx, k) % (q.size as int)),
    )
}

/// Where the `k`-th entry is that the device fills in the used ring.
pub open spec fn used_entry(q: VirtQueue, k: int) -> int {
    q.used_ring_addr + 4 + 8 * (ring_index(q.last_used_idx, k) % (q.size as int))
}

/// Whether the `k`-th entry that the device fills names this chain and this
/// number of bytes.
#[verifier::opaque]
pub open spec fn is_used(m: MemView, q: VirtQueue, k: int, head: int, written: int) -> bool {
    &&& laws::u32_at(m, used_entry(q, k)) == head
    &&& laws::u32_at(m, used_entry(q, k) + 4) == written
}

/// How far the driver sees the used ring filled.
pub open spec fn shown(m: MemView, q: VirtQueue) -> int {
    laws::u16_at(m, q.used_ring_addr + 2)
}

/// Whether an address lies in the used ring.
pub open spec fn in_used(q: VirtQueue, addr: int) -> bool {
    q.used_ring_addr <= addr < q.used_ring_addr + 4 + 8 * q.size
}

/// Whether a stretch of guest memory lies apart from the used ring.
pub open spec fn apart(q: VirtQueue, addr: int, len: int) -> bool {
    addr + len <= q.used_ring_addr || q.used_ring_addr + 4 + 8 * q.size <= addr
}

/// Whether the driver has laid the queue out in guest memory, with the used ring
/// apart from what the device reads.
pub open spec fn laid_out(m: MemView, q: VirtQueue) -> bool {
    &&& q.ready
    &&& q.size > 0
    &&& m.end() <= u64::MAX
    &&& m.in_bounds(q.avail_ring_addr as int, 4 + 2 * q.size)
    &&& m.in_bounds(q.used_ring_addr as int, 4 + 8 * q.size)
    &&& m.in_bounds(q.desc_table_addr as int, 16 * q.size)
    &&& apart(q, q.avail_ring_addr as int, 4 + 2 * q.size)
    &&& apart(q, q.desc_table_addr as int, 16 * q.size)
}

/// The queue with both positions `k` entries on.
pub open spec fn moved(q: VirtQueue, k: int) -> VirtQueue {
    VirtQueue {
        last_avail_idx: ring_index(q.last_avail_idx, k) as u16,
        last_used_idx: ring_index(q.last_used_idx, k) as u16,
        ..q
    }
}

/// Whether guest memory changed in the used ring only.
pub open spec fn only_used_changed(m: MemView, n: MemView, q: VirtQueue) -> bool {
    &&& n.base == m.base
    &&& n.data.len() == m.data.len()
    &&& forall|addr: int|
        m.base <= addr < m.end() && !in_used(q, addr) ==> #[trigger] laws::byte_at(n, addr)
            == laws::byte_at(m, addr)
}

/// Entry `i` of the descriptor table.
#[verifier::opaque]
pub open spec fn desc_at(m: MemView, q: VirtQueue, i: int) -> VirtqDesc {
    let at = q.desc_table_addr + 16 * i;
    VirtqDesc {
        addr: laws::u64_at(m, at) as u64,
        len: laws::u32_at(m, at + 8) as u32,
        flags: laws::u16_at(m, at + 12) as u16,
        next: laws::u16_at(m, at + 14) as u16,
    }
}

/// Whether the chain goes on behind a descriptor.
pub open spec fn goes_on(d: VirtqDesc) -> bool {
    d.flags % 2 == 1
}

/// Whether a descriptor's buffer is for the device to write.
pub open spec fn for_device(d: VirtqDesc) -> bool {
    d.flags / 2 % 2 == 1
}

/// Whether these are the descriptors of the chain that starts at `head`.
pub open spec fn is_chain(m: MemView, q: VirtQueue, head: int, c: Seq<VirtqDesc>) -> bool {
    &&& 1 <= c.len() <= q.size
    &&& 0 <= head < q.size
    &&& c[0] == desc_at(m, q, head)
    &&& forall|i: int|
        0 <= i < c.len() - 1 ==> goes_on(#[trigger] c[i]) && c[i].next < q.size && c[i + 1]
            == desc_at(m, q, c[i].next as int)
    &&& !goes_on(c.last())
}

/// Whether guest memory holds the buffer of a descriptor.
pub open spec fn held(m: MemView, d: VirtqDesc) -> bool {
    m.in_bounds(d.addr as int, d.len as int)
}

/// The bytes of the buffers of descriptors, one behind the other.
pub open spec fn gathered(m: MemView, c: Seq<VirtqDesc>) -> Seq<u8>
    decreases c.len(),
{
    if c.len() == 0 {
        Seq::empty()
    } else {
        Seq::new(c[0].len as nat, |i: int| laws::byte_at(m, c[0].addr + i)) + gathered(m, c.skip(1))
    }
}

/// The flags of a descriptor as bits.
pub proof fn lemma_flags(d: VirtqDesc)
    ensures
        d.spec_has_next() == goes_on(d),
        d.spec_writable() == for_device(d),
{
    let f = d.flags;
    assert(f & 1 != 0 <==> f % 2 == 1) by (bit_vector);
    assert(f & 2 != 0 <==> f / 2 % 2 == 1) by (bit_vector);
}

/// A slice of guest memory by its bytes.
pub proof fn lemma_slice(m: MemView, addr: int, len: int)
    requires
        m.in_bounds(addr, len),
    ensures
        m.slice(addr, len) == Seq::new(len as nat, |i: int| laws::byte_at(m, addr + i)),
{
    assert(m.slice(addr, len) =~= Seq::new(len as nat, |i: int| laws::byte_at(m, addr + i)));
}

/// A descriptor as the device reads it.
pub proof fn lemma_desc(m: MemView, q: VirtQueue, i: u16)
    requires
        laid_out(m, q),
    ensures
        i < q.size ==> q.desc(m, i) == Ok::<VirtqDesc, QueueFault>(desc_at(m, q, i as int)),
        i >= q.size ==> q.desc(m, i) is Err,
{
    reveal(desc_at);
    if i < q.size {
        let at = q.desc_table_addr + 16 * i;
        let b = m.slice(at, 16);
        assert(m.in_bounds(at, 16));
        assert(transport::addr_plus(q.desc_table_addr, i * 16) == at);
        assert forall|j: int| 0 <= j < 16 implies #[trigger] b[j] == laws::byte_at(m, at + j) by {}
        assert(b[0] == laws::byte_at(m, at) && b[1] == laws::byte_at(m, at + 1) && b[2]
            == laws::byte_at(m, at + 2) && b[3] == laws::byte_at(m, at + 3));
        assert(b[4] == laws::byte_at(m, at + 4) && b[5] == laws::byte_at(m, at + 5) && b[6]
            == laws::byte_at(m, at + 6) && b[7] == laws::byte_at(m, at + 7));
        assert(b[8] == laws::byte_at(m, at + 8) && b[9] == laws::byte_at(m, at + 9) && b[10]
            == laws::byte_at(m, at + 10) && b[11] == laws::byte_at(m, at + 11));
        assert(b[12] == laws::byte_at(m, at + 12) && b[13] == laws::byte_at(m, at + 13) && b[14]
            == laws::byte_at(m, at + 14) && b[15] == laws::byte_at(m, at + 15));
        assert(crate::bytes::le64(b, 0) == laws::u64_at(m, at));
        assert(crate::bytes::le32(b, 8) == laws::u32_at(m, at + 8));
        assert(crate::bytes::le16(b, 12) == laws::u16_at(m, at + 12));
        assert(crate::bytes::le16(b, 14) == laws::u16_at(m, at + 14));
    }
}

/// The next head as the device reads it.
pub proof fn lemma_head(m: MemView, q: VirtQueue, k: int)
    requires
        laid_out(m, q),
        0 <= k,
    ensures
        moved(q, k).avail_head(m) == Ok::<u16, MemoryError>(head_at(m, q, k) as u16),
        0 <= head_at(m, q, k) <= 0xffff,
{
    reveal(head_at);
    let i = ring_index(q.last_avail_idx, k) % (q.size as int);
    let at = q.avail_ring_addr + 4 + 2 * i;
    assert(0 <= i < q.size);
    assert(m.in_bounds(at, 2));
    let b = m.slice(at, 2);
    assert(b[0] == laws::byte_at(m, at) && b[1] == laws::byte_at(m, at + 1));
}

/// How far the avail ring is filled, as the device reads it.
pub proof fn lemma_avail(m: MemView, q: VirtQueue)
    requires
        laid_out(m, q),
    ensures
        q.avail_idx(m) == Ok::<u16, MemoryError>(laws::u16_at(m, q.avail_ring_addr + 2) as u16),
        waiting(m, q) == transport::ring_distance(
            q.last_avail_idx,
            laws::u16_at(m, q.avail_ring_addr + 2) as u16,
        ),
        0 <= waiting(m, q) < 0x1_0000,
{
    let at = q.avail_ring_addr + 2;
    assert(m.in_bounds(at, 2));
    let b = m.slice(at, 2);
    assert(b[0] == laws::byte_at(m, at) && b[1] == laws::byte_at(m, at + 1));
}

/// One entry on, and none.
pub proof fn lemma_moved(q: VirtQueue, k: int)
    requires
        0 <= k,
    ensures
        moved(q, k).advanced() == moved(q, k + 1),
        moved(q, 0) == q,
{
}

/// What filling a used ring entry leaves.
pub proof fn lemma_put_used(m: MemView, q: VirtQueue, k: int, head: u16, written: u32)
    requires
        laid_out(m, q),
        0 <= k,
    ensures
        ({
            let (n, r) = moved(q, k).put_used(m, head, written);
            &&& r is Ok
            &&& laid_out(n, q)
            &&& only_used_changed(m, n, q)
            &&& is_used(n, q, k, head as int, written as int)
            &&& forall|addr: int|
                m.base <= addr < m.end() && !(used_entry(q, k) <= addr < used_entry(q, k) + 8)
                    ==> #[trigger] laws::byte_at(n, addr) == laws::byte_at(m, addr)
        }),
{
    reveal(is_used);
    let at = used_entry(q, k);
    let (n, r) = moved(q, k).put_used(m, head, written);
    let i = ring_index(q.last_used_idx, k) % (q.size as int);
    assert(0 <= i < q.size);
    assert(moved(q, k).used_addr() == at);
    assert(m.in_bounds(at, 8));
    let a = crate::bytes::le32_bytes(head as u32);
    let b = crate::bytes::le32_bytes(written);
    let m1 = m.store(at, a);
    assert(n == m1.store(at + 4, b));
    assert(laws::byte_at(n, at) == a[0] && laws::byte_at(n, at + 1) == a[1] && laws::byte_at(
        n,
        at + 2,
    ) == a[2] && laws::byte_at(n, at + 3) == a[3]);
    assert(laws::byte_at(n, at + 4) == b[0] && laws::byte_at(n, at + 5) == b[1] && laws::byte_at(
        n,
        at + 6,
    ) == b[2] && laws::byte_at(n, at + 7) == b[3]);
    crate::bytes::law_le32_round_trip(head as u32);
    crate::bytes::law_le32_round_trip(written);
}

/// What showing the driver how far the used ring is filled leaves.
pub proof fn lemma_put_idx(m: MemView, q: VirtQueue, k: int)
    requires
        laid_out(m, q),
        0 <= k,
    ensures
        ({
            let (n, r) = moved(q, k).put_used_idx(m);
            &&& r is Ok
            &&& laid_out(n, q)
            &&& only_used_changed(m, n, q)
            &&& shown(n, q) == ring_index(q.last_used_idx, k)
            &&& forall|addr: int|
                m.base <= addr < m.end() && addr != q.used_ring_addr + 2 && addr
                    != q.used_ring_addr + 3 ==> #[trigger] laws::byte_at(n, addr) == laws::byte_at(
                    m,
                    addr,
                )
        }),
{
    let at = q.used_ring_addr + 2;
    let (n, r) = moved(q, k).put_used_idx(m);
    let v = moved(q, k).last_used_idx;
    let b = crate::bytes::le16_bytes(v);
    assert(n == m.store(at, b));
    assert(laws::byte_at(n, at) == b[0] && laws::byte_at(n, at + 1) == b[1]);
    crate::bytes::law_le16_round_trip(v);
}

/// Two entries that are fewer than the ring's size apart are not the same.
pub proof fn lemma_entries_differ(q: VirtQueue, i: int, j: int)
    requires
        q.size > 0,
        0 <= i < j,
        j - i < q.size,
        0x1_0000int % (q.size as int) == 0 || q.last_used_idx + j < 0x1_0000,
    ensures
        used_entry(q, i) + 8 <= used_entry(q, j) || used_entry(q, j) + 8 <= used_entry(q, i),
{
    let s = q.size as int;
    let a = ring_index(q.last_used_idx, i);
    let b = ring_index(q.last_used_idx, j);
    assert(a % s != b % s) by {
        lemma_residues(q.last_used_idx + i, q.last_used_idx + j, s);
    }
}

/// Numbers that are fewer than `s` apart differ in what they leave divided by
/// `s`, also if they are counted round 16 bits, where `s` divides that.
proof fn lemma_residues(x: int, y: int, s: int)
    requires
        0 <= x < y,
        y - x < s,
        0 < s < 0x1_0000,
        0x1_0000int % s == 0 || y < 0x1_0000,
    ensures
        (x % 0x1_0000) % s != (y % 0x1_0000) % s,
{
    if y < 0x1_0000 {
        vstd::arithmetic::div_mod::lemma_small_mod(x as nat, 0x1_0000);
        vstd::arithmetic::div_mod::lemma_small_mod(y as nat, 0x1_0000);
    } else {
        let t = 0x1_0000int / s;
        vstd::arithmetic::div_mod::lemma_fundamental_div_mod(0x1_0000, s);
        assert(0x1_0000 == s * t);
        vstd::arithmetic::div_mod::lemma_mod_mod(x, s, t);
        vstd::arithmetic::div_mod::lemma_mod_mod(y, s, t);
        assert((x % 0x1_0000) % s == x % s);
        assert((y % 0x1_0000) % s == y % s);
    }
    if x % s == y % s {
        vstd::arithmetic::div_mod::lemma_fundamental_div_mod(x, s);
        vstd::arithmetic::div_mod::lemma_fundamental_div_mod(y, s);
        let d = y / s - x / s;
        assert(y - x == s * d) by (nonlinear_arith)
            requires
                x == s * (x / s) + x % s,
                y == s * (y / s) + y % s,
                x % s == y % s,
                d == y / s - x / s,
        ;
        assert(false) by (nonlinear_arith)
            requires
                0 < y - x < s,
                y - x == s * d,
        ;
    }
}

/// Whether the used ring names the first of the waiting chains in order, each with
/// this number of bytes. `m` is guest memory before.
pub open spec fn given_back(m: MemView, n: MemView, q: VirtQueue, written: Seq<int>) -> bool {
    forall|k: int|
        0 <= k < written.len() ==> is_used(n, q, k, head_at(m, q, k), #[trigger] written[k])
}

/// Whether a turn of the used ring has room for all waiting chains.
pub open spec fn one_turn(m: MemView, q: VirtQueue) -> bool {
    waiting(m, q) <= q.size && 0x1_0000int % (q.size as int) == 0
}

/// Filling the next entry keeps those before it.
pub proof fn lemma_given_back(
    m: MemView,
    a: MemView,
    q: VirtQueue,
    written: Seq<int>,
    head: u16,
    w: u32,
)
    requires
        laid_out(m, q),
        laid_out(a, q),
        one_turn(m, q),
        written.len() < waiting(m, q),
        given_back(m, a, q, written),
        head == head_at(m, q, written.len() as int),
    ensures
        given_back(
            m,
            moved(q, written.len() as int).put_used(a, head, w).0,
            q,
            written.push(w as int),
        ),
{
    reveal(is_used);
    let j = written.len() as int;
    let b = moved(q, j).put_used(a, head, w).0;
    lemma_put_used(a, q, j, head, w);
    let all = written.push(w as int);
    assert forall|k: int| 0 <= k < all.len() implies is_used(
        b,
        q,
        k,
        head_at(m, q, k),
        #[trigger] all[k],
    ) by {
        if k < j {
            assert(is_used(a, q, k, head_at(m, q, k), written[k]));
            lemma_entries_differ(q, k, j);
            let at = used_entry(q, k);
            let i = ring_index(q.last_used_idx, k) % (q.size as int);
            assert(0 <= i < q.size);
            assert(laws::byte_at(b, at) == laws::byte_at(a, at) && laws::byte_at(b, at + 1)
                == laws::byte_at(a, at + 1) && laws::byte_at(b, at + 2) == laws::byte_at(a, at + 2)
                && laws::byte_at(b, at + 3) == laws::byte_at(a, at + 3));
            assert(laws::byte_at(b, at + 4) == laws::byte_at(a, at + 4) && laws::byte_at(b, at + 5)
                == laws::byte_at(a, at + 5) && laws::byte_at(b, at + 6) == laws::byte_at(a, at + 6)
                && laws::byte_at(b, at + 7) == laws::byte_at(a, at + 7));
        }
    }
}

/// Showing how far the used ring is filled keeps its entries.
pub proof fn lemma_shown_keeps(m: MemView, a: MemView, q: VirtQueue, written: Seq<int>, k: int)
    requires
        laid_out(a, q),
        0 <= k,
        given_back(m, a, q, written),
    ensures
        given_back(m, moved(q, k).put_used_idx(a).0, q, written),
{
    reveal(is_used);
    let b = moved(q, k).put_used_idx(a).0;
    lemma_put_idx(a, q, k);
    assert forall|j: int| 0 <= j < written.len() implies is_used(
        b,
        q,
        j,
        head_at(m, q, j),
        #[trigger] written[j],
    ) by {
        assert(is_used(a, q, j, head_at(m, q, j), written[j]));
        let at = used_entry(q, j);
        let i = ring_index(q.last_used_idx, j) % (q.size as int);
        assert(0 <= i < q.size);
        assert(laws::byte_at(b, at) == laws::byte_at(a, at) && laws::byte_at(b, at + 1)
            == laws::byte_at(a, at + 1) && laws::byte_at(b, at + 2) == laws::byte_at(a, at + 2)
            && laws::byte_at(b, at + 3) == laws::byte_at(a, at + 3));
        assert(laws::byte_at(b, at + 4) == laws::byte_at(a, at + 4) && laws::byte_at(b, at + 5)
            == laws::byte_at(a, at + 5) && laws::byte_at(b, at + 6) == laws::byte_at(a, at + 6)
            && laws::byte_at(b, at + 7) == laws::byte_at(a, at + 7));
    }
}

/// What lies apart from the used ring reads as before.
pub proof fn lemma_same_numbers(m: MemView, n: MemView, q: VirtQueue)
    requires
        laid_out(m, q),
        only_used_changed(m, n, q),
    ensures
        laid_out(n, q),
        waiting(n, q) == waiting(m, q),
        forall|k: int| 0 <= k ==> #[trigger] head_at(n, q, k) == head_at(m, q, k),
        forall|i: int| 0 <= i < q.size ==> #[trigger] desc_at(n, q, i) == desc_at(m, q, i),
        forall|addr: int, len: int|
            m.in_bounds(addr, len) && apart(q, addr, len) ==> #[trigger] n.slice(addr, len)
                == m.slice(addr, len),
{
    reveal(head_at);
    reveal(desc_at);
    let a = q.avail_ring_addr as int;
    assert(laws::byte_at(n, a + 2) == laws::byte_at(m, a + 2) && laws::byte_at(n, a + 3)
        == laws::byte_at(m, a + 3));
    assert forall|k: int| 0 <= k implies #[trigger] head_at(n, q, k) == head_at(m, q, k) by {
        let i = ring_index(q.last_avail_idx, k) % (q.size as int);
        assert(0 <= i < q.size);
        let at = a + 4 + 2 * i;
        assert(laws::byte_at(n, at) == laws::byte_at(m, at) && laws::byte_at(n, at + 1)
            == laws::byte_at(m, at + 1));
    }
    assert forall|i: int| 0 <= i < q.size implies #[trigger] desc_at(n, q, i) == desc_at(m, q, i) by {
        let at = q.desc_table_addr + 16 * i;
        assert(laws::byte_at(n, at) == laws::byte_at(m, at) && laws::byte_at(n, at + 1)
            == laws::byte_at(m, at + 1) && laws::byte_at(n, at + 2) == laws::byte_at(m, at + 2)
            && laws::byte_at(n, at + 3) == laws::byte_at(m, at + 3));
        assert(laws::byte_at(n, at + 4) == laws::byte_at(m, at + 4) && laws::byte_at(n, at + 5)
            == laws::byte_at(m, at + 5) && laws::byte_at(n, at + 6) == laws::byte_at(m, at + 6)
            && laws::byte_at(n, at + 7) == laws::byte_at(m, at + 7));
        assert(laws::byte_at(n, at + 8) == laws::byte_at(m, at + 8) && laws::byte_at(n, at + 9)
            == laws::byte_at(m, at + 9) && laws::byte_at(n, at + 10) == laws::byte_at(m, at + 10)
            && laws::byte_at(n, at + 11) == laws::byte_at(m, at + 11));
        assert(laws::byte_at(n, at + 12) == laws::byte_at(m, at + 12) && laws::byte_at(n, at + 13)
            == laws::byte_at(m, at + 13) && laws::byte_at(n, at + 14) == laws::byte_at(m, at + 14)
            && laws::byte_at(n, at + 15) == laws::byte_at(m, at + 15));
    }
    assert forall|addr: int, len: int| m.in_bounds(addr, len) && apart(q, addr, len) implies #[trigger] n.slice(
        addr,
        len,
    ) == m.slice(addr, len) by {
        assert forall|i: int| 0 <= i < len implies n.slice(addr, len)[i] == m.slice(addr, len)[i] by {
            assert(laws::byte_at(n, addr + i) == laws::byte_at(m, addr + i));
        }
        assert(n.slice(addr, len) =~= m.slice(addr, len));
    }
}

/// Whether every buffer that guest memory holds lies apart from the used ring.
pub open spec fn buffers_apart(m: MemView, q: VirtQueue) -> bool {
    forall|i: int|
        0 <= i < q.size ==> apart(
            q,
            (#[trigger] desc_at(m, q, i)).addr as int,
            desc_at(m, q, i).len as int,
        )
}

/// One entry on is one fewer to go.
pub proof fn lemma_move_on(q: VirtQueue, avail: u16)
    ensures
        q.last_avail_idx == avail ==> transport::ring_distance(q.last_avail_idx, avail) == 0
            && moved(q, 0) == q,
        q.last_avail_idx != avail ==> ({
            let n = transport::ring_distance(q.last_avail_idx, avail) as int;
            &&& n > 0
            &&& transport::ring_distance(q.advanced().last_avail_idx, avail) == n - 1
            &&& moved(q.advanced(), n - 1) == moved(q, n)
        }),
{
}

/// A chain as the device reads it.
pub proof fn lemma_chain(m: MemView, q: VirtQueue, head: u16, c: Seq<VirtqDesc>, visited: nat)
    requires
        laid_out(m, q),
        is_chain(m, q, head as int, c),
        visited + c.len() <= q.size,
    ensures
        q.chain(m, head, visited) == Ok::<Seq<VirtqDesc>, QueueFault>(c),
    decreases c.len(),
{
    lemma_desc(m, q, head);
    lemma_flags(c[0]);
    if c.len() == 1 {
        assert(c =~= seq![c[0]]);
    } else {
        assert(goes_on(c[0]) && c[0].next < q.size && c[0int + 1] == desc_at(m, q, c[0].next as int));
        let rest = c.skip(1);
        lemma_chain_tail(m, q, head, c);
        lemma_chain(m, q, c[0].next, rest, visited + 1);
        assert(seq![c[0]] + rest =~= c);
    }
}

/// What is behind the first descriptor is a chain too.
pub proof fn lemma_chain_tail(m: MemView, q: VirtQueue, head: u16, c: Seq<VirtqDesc>)
    requires
        is_chain(m, q, head as int, c),
        c.len() > 1,
    ensures
        is_chain(m, q, c[0].next as int, c.skip(1)),
        goes_on(c[0]),
        c[0].next < q.size,
{
    let rest = c.skip(1);
    assert(goes_on(c[0]) && c[0].next < q.size && c[0int + 1] == desc_at(m, q, c[0].next as int));
    assert forall|i: int| 0 <= i < rest.len() - 1 implies goes_on(#[trigger] rest[i])
        && rest[i].next < q.size && rest[i + 1] == desc_at(m, q, rest[i].next as int) by {
        assert(rest[i] == c[i + 1] && rest[i + 1] == c[i + 2]);
    }
    assert(rest.last() == c.last());
}

/// A chain is the same where the descriptors are.
pub proof fn lemma_chain_stays(m: MemView, n: MemView, q: VirtQueue, head: int, c: Seq<VirtqDesc>)
    requires
        is_chain(m, q, head, c),
        forall|i: int| 0 <= i < q.size ==> #[trigger] desc_at(n, q, i) == desc_at(m, q, i),
    ensures
        is_chain(n, q, head, c),
{
    assert(desc_at(n, q, head) == c[0]);
    assert forall|i: int| 0 <= i < c.len() - 1 implies goes_on(#[trigger] c[i]) && c[i].next
        < q.size && c[i + 1] == desc_at(n, q, c[i].next as int) by {
        assert(desc_at(n, q, c[i].next as int) == desc_at(m, q, c[i].next as int));
    }
}

} // verus!
