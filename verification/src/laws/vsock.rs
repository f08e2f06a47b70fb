//! How packets travel between the vsock connections and guest memory.

use crate::bytes;
use crate::devices::vsock::{self, ConnMapKey, Entry, RunView, RxSlot};
use crate::devices::vsock_conn::{ConnState, PendingRx, VsockPacket};
use crate::laws;
use crate::laws::{buffers, queue};
use crate::memory::{MemView, MemoryError};
use crate::transport::{self, QueueFault, VirtQueue, VirtqDesc};
use vstd::prelude::*;

verus! {

/// Whether the header of a packet stands in guest memory at an address.
#[verifier::opaque]
pub open spec fn packet_at(m: MemView, addr: int, pkt: VsockPacket) -> bool {
    &&& laws::u64_at(m, addr) == pkt.src_cid
    &&& laws::u64_at(m, addr + 8) == pkt.dst_cid
    &&& laws::u32_at(m, addr + 16) == pkt.src_port
    &&& laws::u32_at(m, addr + 20) == pkt.dst_port
    &&& laws::u32_at(m, addr + 24) == pkt.len
    &&& laws::u16_at(m, addr + 28) == pkt.pkt_type
    &&& laws::u16_at(m, addr + 30) == pkt.op
    &&& laws::u32_at(m, addr + 32) == pkt.flags
    &&& laws::u32_at(m, addr + 36) == pkt.buf_alloc
    &&& laws::u32_at(m, addr + 40) == pkt.fwd_cnt
}

/// Whether these bytes stand in guest memory at an address.
pub open spec fn bytes_at(m: MemView, addr: int, b: Seq<u8>) -> bool {
    forall|j: int| 0 <= j < b.len() ==> #[trigger] laws::byte_at(m, addr + j) == b[j]
}

/// Numbers in bytes that stand in guest memory.
proof fn lemma_numbers(m: MemView, addr: int, b: Seq<u8>)
    requires
        b.len() >= 44,
        forall|j: int| 0 <= j < 44 ==> #[trigger] b[j] == laws::byte_at(m, addr + j),
    ensures
        packet_at(m, addr, VsockPacket::parse(b)),
{
    reveal(packet_at);
    assert(b[0] == laws::byte_at(m, addr) && b[1] == laws::byte_at(m, addr + 1) && b[2]
        == laws::byte_at(m, addr + 2) && b[3] == laws::byte_at(m, addr + 3));
    assert(b[4] == laws::byte_at(m, addr + 4) && b[5] == laws::byte_at(m, addr + 5) && b[6]
        == laws::byte_at(m, addr + 6) && b[7] == laws::byte_at(m, addr + 7));
    assert(bytes::le64(b, 0) == laws::u64_at(m, addr));
    assert(b[8] == laws::byte_at(m, addr + 8) && b[9] == laws::byte_at(m, addr + 9) && b[10]
        == laws::byte_at(m, addr + 10) && b[11] == laws::byte_at(m, addr + 11));
    assert(b[12] == laws::byte_at(m, addr + 12) && b[13] == laws::byte_at(m, addr + 13) && b[14]
        == laws::byte_at(m, addr + 14) && b[15] == laws::byte_at(m, addr + 15));
    assert(bytes::le64(b, 8) == laws::u64_at(m, addr + 8));
    assert(b[16] == laws::byte_at(m, addr + 16) && b[17] == laws::byte_at(m, addr + 17) && b[18]
        == laws::byte_at(m, addr + 18) && b[19] == laws::byte_at(m, addr + 19));
    assert(b[20] == laws::byte_at(m, addr + 20) && b[21] == laws::byte_at(m, addr + 21) && b[22]
        == laws::byte_at(m, addr + 22) && b[23] == laws::byte_at(m, addr + 23));
    assert(b[24] == laws::byte_at(m, addr + 24) && b[25] == laws::byte_at(m, addr + 25) && b[26]
        == laws::byte_at(m, addr + 26) && b[27] == laws::byte_at(m, addr + 27));
    assert(b[28] == laws::byte_at(m, addr + 28) && b[29] == laws::byte_at(m, addr + 29) && b[30]
        == laws::byte_at(m, addr + 30) && b[31] == laws::byte_at(m, addr + 31));
    assert(b[32] == laws::byte_at(m, addr + 32) && b[33] == laws::byte_at(m, addr + 33) && b[34]
        == laws::byte_at(m, addr + 34) && b[35] == laws::byte_at(m, addr + 35));
    assert(b[36] == laws::byte_at(m, addr + 36) && b[37] == laws::byte_at(m, addr + 37) && b[38]
        == laws::byte_at(m, addr + 38) && b[39] == laws::byte_at(m, addr + 39));
    assert(b[40] == laws::byte_at(m, addr + 40) && b[41] == laws::byte_at(m, addr + 41) && b[42]
        == laws::byte_at(m, addr + 42) && b[43] == laws::byte_at(m, addr + 43));
}

/// Two packets whose headers stand at the same place are the same.
proof fn lemma_one_packet(m: MemView, addr: int, a: VsockPacket, b: VsockPacket)
    requires
        packet_at(m, addr, a),
        packet_at(m, addr, b),
    ensures
        a == b,
{
    reveal(packet_at);
}

/// Whether a header and a payload go into two stretches of guest memory that lie in
/// these buffers, off each other and off the queue.
#[verifier::opaque]
spec fn fits(m: MemView, q: VirtQueue, h: int, to: int, len: int, c: Seq<VirtqDesc>) -> bool {
    &&& queue::laid_out(m, q)
    &&& 0 <= to <= u64::MAX
    &&& 0 <= len
    &&& 44 + len <= u32::MAX
    &&& m.in_bounds(h, 44)
    &&& m.in_bounds(to, len)
    &&& h + 44 <= to || to + len <= h
    &&& forall|i: int| 0 <= i < c.len() ==> buffers::off_queue(q, #[trigger] c[i])
    &&& forall|addr: int|
        h <= addr < h + 44 || to <= addr < to + len ==> #[trigger] buffers::in_some(c, addr)
}

/// The two writes of a packet, and the entry in the used ring.
proof fn lemma_rx_store(
    m: MemView,
    q: VirtQueue,
    head: u16,
    slot: RxSlot,
    pkt: VsockPacket,
    payload: Seq<u8>,
    to: int,
    c: Seq<VirtqDesc>,
)
    requires
        fits(m, q, slot.header.addr as int, to, payload.len() as int, c),
        slot.header.len >= 44,
        slot.payload_addr == Some(to as u64) || payload.len() == 0,
    ensures
        pkt.serialized().len() == 44,
        VsockPacket::parse(pkt.serialized()) == pkt,
        vsock::rx_store(m, q, head, slot, pkt, payload) == q.put_used(
            m.store(slot.header.addr as int, pkt.serialized()).store(to, payload),
            head,
            (44 + payload.len()) as u32,
        ),
{
    reveal(fits);
    reveal(vsock::rx_store);
    let s = pkt.serialized();
    crate::devices::vsock_conn::law_packet_round_trip(pkt, Seq::empty());
    assert(s + Seq::<u8>::empty() =~= s);
    let m1 = m.store(slot.header.addr as int, s);
    if payload.len() == 0 {
        assert(m1.store(to, payload) =~= m1);
    }
}

/// The used ring lies off the buffers.
proof fn lemma_ring_off(q: VirtQueue, c: Seq<VirtqDesc>, addr: int)
    requires
        forall|i: int| 0 <= i < c.len() ==> buffers::off_queue(q, #[trigger] c[i]),
        buffers::in_some(c, addr),
    ensures
        !queue::in_used(q, addr),
{
    let i = choose|i: int| 0 <= i < c.len() && buffers::inside(#[trigger] c[i], addr);
    assert(buffers::off_queue(q, c[i]));
}

/// What two writes and an entry in the used ring leave.
proof fn lemma_two_writes(
    m: MemView,
    q: VirtQueue,
    head: u16,
    h: int,
    s: Seq<u8>,
    payload: Seq<u8>,
    to: int,
    c: Seq<VirtqDesc>,
)
    requires
        fits(m, q, h, to, payload.len() as int, c),
        s.len() == 44,
    ensures
        ({
            let (n, r) = q.put_used(
                m.store(h, s).store(to, payload),
                head,
                (44 + payload.len()) as u32,
            );
            &&& r is Ok
            &&& bytes_at(n, h, s)
            &&& bytes_at(n, to, payload)
            &&& queue::is_used(n, q, 0, head as int, 44 + payload.len() as int)
            &&& buffers::only_changed(m, n, q, c)
        }),
{
    reveal(fits);
    let m2 = m.store(h, s).store(to, payload);
    let len = (44 + payload.len()) as u32;
    queue::lemma_moved(q, 0);
    assert(queue::laid_out(m2, q));
    queue::lemma_put_used(m2, q, 0, head, len);
    let n = q.put_used(m2, head, len).0;
    assert forall|j: int| 0 <= j < s.len() implies #[trigger] laws::byte_at(n, h + j) == s[j] by {
        assert(buffers::in_some(c, h + j));
        lemma_ring_off(q, c, h + j);
        assert(laws::byte_at(n, h + j) == laws::byte_at(m2, h + j));
    }
    assert forall|j: int| 0 <= j < payload.len() implies #[trigger] laws::byte_at(n, to + j)
        == payload[j] by {
        assert(buffers::in_some(c, to + j));
        lemma_ring_off(q, c, to + j);
        assert(laws::byte_at(n, to + j) == laws::byte_at(m2, to + j));
    }
    assert forall|addr: int|
        m.base <= addr < m.end() && !buffers::in_some(c, addr) && !queue::in_used(
            q,
            addr,
        ) implies #[trigger] laws::byte_at(n, addr) == laws::byte_at(m, addr) by {
        assert(laws::byte_at(n, addr) == laws::byte_at(m2, addr));
    }
}

/// How many bytes of payload the next chain has room for: its second buffer, or
/// what its only one has behind the 44 bytes of the header.
pub open spec fn room_for_payload(m: MemView, q: VirtQueue) -> int {
    let hd = queue::desc_at(m, q, queue::head_at(m, q, 0));
    if queue::goes_on(hd) {
        queue::desc_at(m, q, hd.next as int).len as int
    } else if hd.len <= 44 {
        0
    } else {
        hd.len - 44
    }
}

/// The buffers of the next chain that a packet can go into.
pub open spec fn packet_buffers(m: MemView, q: VirtQueue) -> Seq<VirtqDesc> {
    let hd = queue::desc_at(m, q, queue::head_at(m, q, 0));
    if queue::goes_on(hd) {
        seq![hd, queue::desc_at(m, q, hd.next as int)]
    } else {
        seq![hd]
    }
}

/// Where the payload of a packet belongs: at the start of the second buffer, or
/// behind the header in the only one.
pub open spec fn payload_place(m: MemView, q: VirtQueue) -> int {
    let c = packet_buffers(m, q);
    if c.len() == 2 {
        c[1].addr as int
    } else {
        c[0].addr + 44
    }
}

/// Whether a packet was delivered into the next chain: its header and its payload
/// stand in the chain's buffers, the chain is given back with as many bytes, and
/// nothing else changes in guest memory.
#[verifier::opaque]
pub open spec fn packet_delivered(
    m: MemView,
    n: MemView,
    q: VirtQueue,
    pkt: VsockPacket,
    payload: Seq<u8>,
) -> bool {
    let c = packet_buffers(m, q);
    &&& packet_at(n, c[0].addr as int, pkt)
    &&& bytes_at(n, payload_place(m, q), payload)
    &&& queue::is_used(n, q, 0, queue::head_at(m, q, 0), 44 + payload.len() as int)
    &&& buffers::only_changed(m, n, q, c)
}

/// Whether the next chain can take a packet.
#[verifier::opaque]
pub open spec fn can_take(m: MemView, q: VirtQueue) -> bool {
    let head = queue::head_at(m, q, 0);
    let hd = queue::desc_at(m, q, head);
    &&& queue::laid_out(m, q)
    &&& head < q.size
    &&& queue::goes_on(hd) ==> hd.next < q.size
    &&& hd.len >= 44
    &&& buffers::separate(m, q, packet_buffers(m, q))
}

/// Where the device puts a packet.
proof fn lemma_slot(m: MemView, q: VirtQueue)
    requires
        can_take(m, q),
    ensures
        ({
            let head = queue::head_at(m, q, 0) as u16;
            let slot = vsock::rx_slot(m, q, head)->Ok_0;
            &&& q.avail_head(m) == Ok::<u16, MemoryError>(head)
            &&& vsock::rx_slot(m, q, head) is Ok
            &&& slot.max == room_for_payload(m, q)
            &&& head == queue::head_at(m, q, 0)
            &&& slot.header == packet_buffers(m, q)[0]
            &&& room_for_payload(m, q) > 0 ==> slot.payload_addr == Some(
                payload_place(m, q) as u64,
            )
        }),
{
    reveal(can_take);
    reveal(vsock::rx_slot);
    let head = queue::head_at(m, q, 0) as u16;
    queue::lemma_moved(q, 0);
    queue::lemma_head(m, q, 0);
    queue::lemma_desc(m, q, head);
    let hd = queue::desc_at(m, q, head as int);
    queue::lemma_flags(hd);
    queue::lemma_desc(m, q, hd.next);
    assert(hd.addr + 44 <= u64::MAX) by {
        reveal(buffers::separate);
        assert(packet_buffers(m, q)[0] == hd);
        assert(queue::held(m, packet_buffers(m, q)[0]));
    }
    assert(transport::addr_plus(hd.addr, 44) == hd.addr + 44);
}

/// The two stretches that a packet takes lie in the chain's buffers.
proof fn lemma_stretches(m: MemView, q: VirtQueue, len: int)
    requires
        can_take(m, q),
        0 <= len <= room_for_payload(m, q),
        44 + len <= u32::MAX,
    ensures
        fits(
            m,
            q,
            packet_buffers(m, q)[0].addr as int,
            payload_place(m, q),
            len,
            packet_buffers(m, q),
        ),
        packet_buffers(m, q)[0].len >= 44,
{
    reveal(can_take);
    reveal(buffers::separate);
    reveal(fits);
    let c = packet_buffers(m, q);
    let to = payload_place(m, q);
    let h = c[0].addr as int;
    assert(queue::held(m, c[0]) && buffers::off_queue(q, c[0]));
    if c.len() == 2 {
        assert(queue::held(m, c[1]) && buffers::off_queue(q, c[1]));
        assert(buffers::off(c[0].addr as int, c[0].len as int, c[1].addr as int, c[1].len as int));
    }
    assert forall|addr: int|
        h <= addr < h + 44 || to <= addr < to + len implies #[trigger] buffers::in_some(
        c,
        addr,
    ) by {
        if h <= addr < h + 44 {
            assert(buffers::inside(c[0], addr));
        } else if c.len() == 2 {
            assert(buffers::inside(c[1], addr));
        } else {
            assert(buffers::inside(c[0], addr));
        }
    }
}

/// What storing a packet into the next chain leaves.
proof fn lemma_packet_stored(m: MemView, q: VirtQueue, pkt: VsockPacket, payload: Seq<u8>)
    requires
        can_take(m, q),
        payload.len() <= room_for_payload(m, q),
        44 + payload.len() <= u32::MAX,
    ensures
        ({
            let head = queue::head_at(m, q, 0) as u16;
            let slot = vsock::rx_slot(m, q, head)->Ok_0;
            let (n, r) = vsock::rx_store(m, q, head, slot, pkt, payload);
            &&& q.avail_head(m) == Ok::<u16, MemoryError>(head)
            &&& vsock::rx_slot(m, q, head) is Ok
            &&& slot.max == room_for_payload(m, q)
            &&& r == Ok::<(), MemoryError>(())
            &&& packet_delivered(m, n, q, pkt, payload)
        }),
{
    let head = queue::head_at(m, q, 0) as u16;
    let slot = vsock::rx_slot(m, q, head)->Ok_0;
    let c = packet_buffers(m, q);
    let to = payload_place(m, q);
    lemma_slot(m, q);
    lemma_stretches(m, q, payload.len() as int);
    lemma_stored_at(m, q, head, slot, pkt, payload, to, c);
    let n = vsock::rx_store(m, q, head, slot, pkt, payload).0;
    assert(packet_delivered(m, n, q, pkt, payload)) by {
        reveal(packet_delivered);
    }
}

proof fn lemma_stored_at(
    m: MemView,
    q: VirtQueue,
    head: u16,
    slot: RxSlot,
    pkt: VsockPacket,
    payload: Seq<u8>,
    to: int,
    c: Seq<VirtqDesc>,
)
    requires
        fits(m, q, slot.header.addr as int, to, payload.len() as int, c),
        slot.header.len >= 44,
        slot.payload_addr == Some(to as u64) || payload.len() == 0,
    ensures
        ({
            let (n, r) = vsock::rx_store(m, q, head, slot, pkt, payload);
            &&& r == Ok::<(), MemoryError>(())
            &&& packet_at(n, slot.header.addr as int, pkt)
            &&& bytes_at(n, to, payload)
            &&& queue::is_used(n, q, 0, head as int, 44 + payload.len() as int)
            &&& buffers::only_changed(m, n, q, c)
        }),
{
    lemma_rx_store(m, q, head, slot, pkt, payload, to, c);
    lemma_two_writes(m, q, head, slot.header.addr as int, pkt.serialized(), payload, to, c);
    let n = vsock::rx_store(m, q, head, slot, pkt, payload).0;
    lemma_header(n, slot.header.addr as int, pkt.serialized(), pkt);
}

proof fn lemma_header(n: MemView, h: int, s: Seq<u8>, pkt: VsockPacket)
    requires
        s.len() == 44,
        VsockPacket::parse(s) == pkt,
        bytes_at(n, h, s),
    ensures
        packet_at(n, h, pkt),
{
    assert forall|j: int| 0 <= j < 44 implies #[trigger] s[j] == laws::byte_at(n, h + j) by {
        assert(laws::byte_at(n, h + j) == s[j]);
    }
    lemma_numbers(n, h, s);
}

/// One turn of filling the receive queue.
proof fn lemma_rx_turn(
    m: MemView,
    q: VirtQueue,
    conns: Seq<Entry>,
    avail: u16,
    processed: bool,
    now: u64,
    head: u16,
    slot: RxSlot,
    asked: Seq<Entry>,
    i: int,
    pkt: VsockPacket,
    payload: Seq<u8>,
    n: MemView,
)
    requires
        q.last_avail_idx != avail,
        vsock::any_pending(conns),
        q.avail_head(m) == Ok::<u16, MemoryError>(head),
        vsock::rx_slot(m, q, head) == Ok::<RxSlot, QueueFault>(slot),
        vsock::rx_pick(conns, 0, slot.max as nat, now) == (asked, Some((i, pkt, payload))),
        vsock::rx_store(m, q, head, slot, pkt, payload) == (n, Ok::<(), MemoryError>(())),
    ensures
        vsock::rx_run(m, q, conns, avail, processed, now) == vsock::rx_run(
            n,
            q.advanced(),
            if pkt.op == 3 {
                asked.remove(i)
            } else {
                asked
            },
            avail,
            true,
            now,
        ),
{
}

/// The next packet for the guest goes whole into the next chain of the receive
/// queue, whatever went before, and the work goes on behind it. A connection that
/// was reset is gone then.
pub proof fn law_packet_reaches_guest(
    m: MemView,
    q: VirtQueue,
    conns: Seq<Entry>,
    avail: u16,
    processed: bool,
    now: u64,
    i: int,
    pkt: VsockPacket,
    payload: Seq<u8>,
)
    requires
        q.last_avail_idx != avail,
        can_take(m, q),
        vsock::any_pending(conns),
        vsock::rx_pick(conns, 0, room_for_payload(m, q) as nat, now).1 == Some((i, pkt, payload)),
        payload.len() <= room_for_payload(m, q),
        44 + payload.len() <= u32::MAX,
    ensures
        exists|n: MemView| #[trigger]
            packet_delivered(m, n, q, pkt, payload) && vsock::rx_run(
                m,
                q,
                conns,
                avail,
                processed,
                now,
            ) == vsock::rx_run(
                n,
                queue::moved(q, 1),
                ({
                    let asked = vsock::rx_pick(conns, 0, room_for_payload(m, q) as nat, now).0;
                    if pkt.op == 3 {
                        asked.remove(i)
                    } else {
                        asked
                    }
                }),
                avail,
                true,
                now,
            ),
{
    lemma_packet_stored(m, q, pkt, payload);
    queue::lemma_moved(q, 0);
    let head = queue::head_at(m, q, 0) as u16;
    let slot = vsock::rx_slot(m, q, head)->Ok_0;
    let n = vsock::rx_store(m, q, head, slot, pkt, payload).0;
    let asked = vsock::rx_pick(conns, 0, room_for_payload(m, q) as nat, now).0;
    lemma_rx_turn(m, q, conns, avail, processed, now, head, slot, asked, i, pkt, payload, n);
    assert(packet_delivered(m, n, q, pkt, payload));
}

/// The connections are asked for a packet in turn, each as it is, those that have
/// something to tell: the first packet is taken, and who was not asked stays.
pub proof fn law_connections_take_turns(conns: Seq<Entry>, k: int, max: nat, now: u64)
    requires
        0 <= k <= conns.len(),
    ensures
        ({
            let (out, got) = vsock::rx_pick(conns, k, max, now);
            let end = match got {
                Some((i, _, _)) => i + 1,
                None => conns.len() as int,
            };
            &&& out.len() == conns.len()
            &&& k <= end <= conns.len()
            &&& got matches Some((i, pkt, payload)) ==> k <= i < conns.len() && conns[i].1.pending
                != Set::<PendingRx>::empty() && conns[i].1.received(max, now).1 == Some(
                (pkt, payload),
            )
            &&& forall|j: int|
                k <= j < end && got != None::<(int, VsockPacket, Seq<u8>)> && j < end - 1
                    ==> (#[trigger] conns[j]).1.pending == Set::<PendingRx>::empty()
                    || conns[j].1.received(max, now).1 is None
            &&& got is None ==> forall|j: int|
                k <= j < conns.len() ==> (#[trigger] conns[j]).1.pending == Set::<
                    PendingRx,
                >::empty() || conns[j].1.received(max, now).1 is None
            &&& forall|j: int|
                0 <= j < conns.len() ==> #[trigger] out[j] == if k <= j < end && conns[j].1.pending
                    != Set::<PendingRx>::empty() {
                    (conns[j].0, conns[j].1.received(max, now).0)
                } else {
                    conns[j]
                }
        }),
    decreases conns.len() - k,
{
    if k < conns.len() {
        if conns[k].1.pending == Set::<PendingRx>::empty() {
            law_connections_take_turns(conns, k + 1, max, now);
        } else {
            let (c, p) = conns[k].1.received(max, now);
            let after = conns.update(k, (conns[k].0, c));
            if p is None {
                law_connections_take_turns(after, k + 1, max, now);
                assert forall|j: int| k + 1 <= j < conns.len() implies #[trigger] conns[j]
                    == after[j] by {}
            }
        }
    }
}

/// Filling the receive queue ends without a fault only where no chain is left, no
/// connection has anything to tell, or none of those that have gives a packet that
/// the next chain can take.
pub proof fn law_receiving_goes_on(
    m: MemView,
    q: VirtQueue,
    conns: Seq<Entry>,
    avail: u16,
    processed: bool,
    now: u64,
)
    ensures
        ({
            let run = vsock::rx_run(m, q, conns, avail, processed, now);
            run.result is Ok ==> {
                ||| run.queue.last_avail_idx == avail
                ||| !vsock::any_pending(run.conns)
                ||| exists|before: Seq<Entry>, max: nat|
                    #[trigger] vsock::rx_pick(before, 0, max, now) == (
                        run.conns,
                        None::<(int, VsockPacket, Seq<u8>)>,
                    )
            }
        }),
    decreases transport::ring_distance(q.last_avail_idx, avail),
{
    if q.last_avail_idx != avail && vsock::any_pending(conns) {
        match q.avail_head(m) {
            Err(_) => {},
            Ok(head) => match vsock::rx_slot(m, q, head) {
                Err(_) => {},
                Ok(slot) => {
                    let (asked, pick) = vsock::rx_pick(conns, 0, slot.max as nat, now);
                    match pick {
                        None => {},
                        Some((i, pkt, payload)) => {
                            let (m1, r) = vsock::rx_store(m, q, head, slot, pkt, payload);
                            if r is Ok {
                                transport::lemma_ring_step(q.last_avail_idx, avail);
                                law_receiving_goes_on(
                                    m1,
                                    q.advanced(),
                                    if pkt.op == 3 {
                                        asked.remove(i)
                                    } else {
                                        asked
                                    },
                                    avail,
                                    true,
                                    now,
                                );
                            }
                        },
                    }
                },
            },
        }
    }
}

/// Whether the next chain of the transmit queue holds this packet: its header in
/// the first buffer, and as much of the payload as the header says and the second
/// buffer holds.
pub open spec fn packet_waits(
    m: MemView,
    q: VirtQueue,
    pkt: VsockPacket,
    payload: Seq<u8>,
) -> bool {
    let head = queue::head_at(m, q, 0);
    let hd = queue::desc_at(m, q, head);
    let dd = queue::desc_at(m, q, hd.next as int);
    &&& head < q.size
    &&& hd.len >= 44
    &&& m.in_bounds(hd.addr as int, 44)
    &&& packet_at(m, hd.addr as int, pkt)
    &&& if queue::goes_on(hd) {
        &&& hd.next < q.size
        &&& payload.len() == if dd.len < pkt.len {
            dd.len
        } else {
            pkt.len
        }
        &&& payload.len() > 0 ==> m.in_bounds(dd.addr as int, payload.len() as int)
        &&& bytes_at(m, dd.addr as int, payload)
    } else {
        payload.len() == 0
    }
}

/// Every packet that the guest queues goes to the connections, whatever went
/// before, its chain is given back, and the work goes on behind it.
pub proof fn law_packet_of_guest_is_taken(
    m: MemView,
    q: VirtQueue,
    conns: Seq<Entry>,
    guest_cid: u64,
    avail: u16,
    processed: bool,
    now: u64,
    pkt: VsockPacket,
    payload: Seq<u8>,
)
    requires
        q.last_avail_idx != avail,
        queue::laid_out(m, q),
        packet_waits(m, q, pkt, payload),
    ensures
        exists|n: MemView| #[trigger]
            queue::only_used_changed(m, n, q) && queue::is_used(
                n,
                q,
                0,
                queue::head_at(m, q, 0),
                0,
            ) && vsock::tx_run(m, q, conns, guest_cid, avail, processed, now) == vsock::tx_run(
                n,
                queue::moved(q, 1),
                vsock::dispatched(conns, guest_cid, pkt, payload, now),
                guest_cid,
                avail,
                true,
                now,
            ),
{
    let head = queue::head_at(m, q, 0) as u16;
    queue::lemma_moved(q, 0);
    queue::lemma_head(m, q, 0);
    queue::lemma_desc(m, q, head);
    let hd = queue::desc_at(m, q, head as int);
    queue::lemma_flags(hd);
    queue::lemma_desc(m, q, hd.next);
    let dd = queue::desc_at(m, q, hd.next as int);
    let b = m.slice(hd.addr as int, 44);
    queue::lemma_slice(m, hd.addr as int, 44);
    lemma_numbers(m, hd.addr as int, b);
    lemma_one_packet(m, hd.addr as int, pkt, VsockPacket::parse(b));
    if queue::goes_on(hd) && payload.len() > 0 {
        queue::lemma_slice(m, dd.addr as int, payload.len() as int);
        assert(m.slice(dd.addr as int, payload.len() as int) =~= payload);
    } else {
        assert(payload =~= Seq::<u8>::empty());
    }
    assert(vsock::tx_packet(m, q, head) == Some((pkt, payload)));
    queue::lemma_put_used(m, q, 0, head, 0);
    let n = q.put_used(m, head, 0).0;
    assert(queue::only_used_changed(m, n, q));
}

/// What the driver sees after its transmit queue was worked on without a fault:
/// the whole queue is taken, and the used ring is shown filled that far.
pub proof fn law_transmit_queue_is_emptied(
    m: MemView,
    q: VirtQueue,
    conns: Seq<Entry>,
    guest_cid: u64,
    now: u64,
)
    requires
        queue::laid_out(m, q),
        vsock::tx_processed(m, q, conns, guest_cid, now).result is Ok,
    ensures
        ({
            let run = vsock::tx_processed(m, q, conns, guest_cid, now);
            &&& run.queue.last_avail_idx == laws::u16_at(m, q.avail_ring_addr + 2)
            &&& run.result == Ok::<bool, QueueFault>(queue::waiting(m, q) > 0)
            &&& run.queue == queue::moved(q, queue::waiting(m, q))
            &&& queue::waiting(m, q) > 0 ==> queue::shown(run.mem, q) == run.queue.last_used_idx
        }),
{
    let avail = laws::u16_at(m, q.avail_ring_addr + 2) as u16;
    let run = vsock::tx_run(m, q, conns, guest_cid, avail, false, now);
    lemma_tx_all(m, q, conns, guest_cid, avail, false, now);
    lemma_tx_starts(m, q, conns, guest_cid, now);
    lemma_published(m, q, run);
    lemma_waiting(m, q);
}

proof fn lemma_waiting(m: MemView, q: VirtQueue)
    requires
        queue::laid_out(m, q),
    ensures
        ({
            let avail = laws::u16_at(m, q.avail_ring_addr + 2) as u16;
            let n = transport::ring_distance(q.last_avail_idx, avail) as int;
            &&& n == queue::waiting(m, q)
            &&& queue::moved(q, n).last_avail_idx == avail
            &&& avail == laws::u16_at(m, q.avail_ring_addr + 2)
        }),
{
    queue::lemma_avail(m, q);
    queue::lemma_moved(q, 0);
}

proof fn lemma_tx_starts(m: MemView, q: VirtQueue, conns: Seq<Entry>, guest_cid: u64, now: u64)
    requires
        queue::laid_out(m, q),
    ensures
        vsock::tx_processed(m, q, conns, guest_cid, now) == vsock::published(
            vsock::tx_run(
                m,
                q,
                conns,
                guest_cid,
                laws::u16_at(m, q.avail_ring_addr + 2) as u16,
                false,
                now,
            ),
        ),
{
    queue::lemma_avail(m, q);
}

proof fn lemma_published(m: MemView, q: VirtQueue, run: RunView)
    requires
        queue::laid_out(m, q),
        run.queue.used_ring_addr == q.used_ring_addr,
    ensures
        vsock::published(run).queue == run.queue,
        vsock::published(run).conns == run.conns,
        vsock::published(run).result is Ok ==> vsock::published(run).result == run.result,
        vsock::published(run).result == Ok::<bool, QueueFault>(true) ==> queue::shown(
            vsock::published(run).mem,
            q,
        ) == run.queue.last_used_idx,
        run.result == Ok::<bool, QueueFault>(false) ==> vsock::published(run) == run,
{
    if vsock::published(run).result == Ok::<bool, QueueFault>(true) {
        lemma_shows(run.mem, run.queue);
    }
}

/// A notification of the receive queue has the chains that wait filled with the
/// packets that are due, and then shows the driver how many were.
pub proof fn law_receive_queue_is_served(m: MemView, q: VirtQueue, conns: Seq<Entry>, now: u64)
    requires
        queue::laid_out(m, q),
    ensures
        ({
            let avail = laws::u16_at(m, q.avail_ring_addr + 2) as u16;
            let run = vsock::rx_run(m, q, conns, avail, false, now);
            let end = vsock::rx_processed(m, q, conns, now);
            &&& end.conns == run.conns
            &&& end.queue == run.queue
            &&& end.result is Ok ==> end.result == run.result
            &&& end.result == Ok::<bool, QueueFault>(true) ==> queue::shown(end.mem, q)
                == run.queue.last_used_idx
            &&& run.result == Ok::<bool, QueueFault>(false) ==> end == run
        }),
{
    let avail = laws::u16_at(m, q.avail_ring_addr + 2) as u16;
    let run = vsock::rx_run(m, q, conns, avail, false, now);
    queue::lemma_avail(m, q);
    lemma_rx_layout(m, q, conns, avail, false, now);
    lemma_published(m, q, run);
}

proof fn lemma_rx_layout(
    m: MemView,
    q: VirtQueue,
    conns: Seq<Entry>,
    avail: u16,
    processed: bool,
    now: u64,
)
    ensures
        vsock::rx_run(m, q, conns, avail, processed, now).queue.used_ring_addr == q.used_ring_addr,
    decreases transport::ring_distance(q.last_avail_idx, avail),
{
    queue::lemma_move_on(q, avail);
    if q.last_avail_idx != avail && vsock::any_pending(conns) {
        match q.avail_head(m) {
            Err(_) => {},
            Ok(head) => match vsock::rx_slot(m, q, head) {
                Err(_) => {},
                Ok(slot) => {
                    let (asked, pick) = vsock::rx_pick(conns, 0, slot.max as nat, now);
                    match pick {
                        None => {},
                        Some((i, pkt, payload)) => {
                            let (m1, r) = vsock::rx_store(m, q, head, slot, pkt, payload);
                            if r is Ok {
                                lemma_rx_layout(
                                    m1,
                                    q.advanced(),
                                    if pkt.op == 3 {
                                        asked.remove(i)
                                    } else {
                                        asked
                                    },
                                    avail,
                                    true,
                                    now,
                                );
                            }
                        },
                    }
                },
            },
        }
    }
}

/// A packet of the guest goes to the connection between its two ports, if there is
/// one, and leaves the others. It neither opens nor ends a connection unless it is
/// a request or a reset.
pub proof fn law_packets_reach_their_connection(
    conns: Seq<Entry>,
    guest_cid: u64,
    pkt: VsockPacket,
    payload: Seq<u8>,
    now: u64,
)
    requires
        vsock::keys_distinct(conns),
        pkt.op != 1,
        pkt.op != 3,
    ensures
        ({
            let out = vsock::dispatched(conns, guest_cid, pkt, payload, now);
            &&& out.len() == conns.len()
            &&& forall|i: int|
                0 <= i < conns.len() ==> #[trigger] out[i] == if conns[i].0.local_port
                    == pkt.dst_port && conns[i].0.peer_port == pkt.src_port {
                    (conns[i].0, conns[i].1.sent(pkt, payload, now).0)
                } else {
                    conns[i]
                }
        }),
{
    let key = ConnMapKey { local_port: pkt.dst_port, peer_port: pkt.src_port };
    vsock::lemma_find(conns, key, 0);
}

/// A request of the guest opens a connection between its two ports if there is
/// none, which then agrees to it. A reset ends the one there is.
pub proof fn law_requests_open_and_resets_end(
    conns: Seq<Entry>,
    guest_cid: u64,
    pkt: VsockPacket,
    payload: Seq<u8>,
    now: u64,
)
    requires
        vsock::keys_distinct(conns),
    ensures
        ({
            let out = vsock::dispatched(conns, guest_cid, pkt, payload, now);
            let key = ConnMapKey { local_port: pkt.dst_port, peer_port: pkt.src_port };
            let known = exists|i: int| 0 <= i < conns.len() && (#[trigger] conns[i]).0 == key;
            &&& pkt.op == 1 && known ==> out == conns
            &&& pkt.op == 1 && !known ==> {
                let c = out.last().1;
                &&& out == conns.push((key, c))
                &&& c.state == ConnState::PeerInit
                &&& c.local_cid == 2
                &&& c.peer_cid == guest_cid
                &&& c.local_port == pkt.dst_port
                &&& c.peer_port == pkt.src_port
                &&& c.peer_buf_alloc == pkt.buf_alloc
                &&& c.peer_fwd_cnt == 0 && c.fwd_cnt == 0 && c.rx_cnt == 0
                &&& c.last_fwd_cnt_to_peer == 0
                &&& c.tx.len() == 0 && c.rx.len() == 0
                &&& !c.host_closed && c.expiry is None
                &&& forall|it: PendingRx| #[trigger]
                    c.pending.contains(it) <==> it == PendingRx::Response
            }
            &&& pkt.op == 3 ==> forall|i: int| 0 <= i < out.len() ==> (#[trigger] out[i]).0 != key
            &&& pkt.op == 3 && known ==> out.len() == conns.len() - 1
            &&& pkt.op == 3 && !known ==> out == conns
        }),
{
    let key = ConnMapKey { local_port: pkt.dst_port, peer_port: pkt.src_port };
    vsock::lemma_find(conns, key, 0);
    let k = vsock::find_from(conns, key, 0);
    if k < conns.len() {
        assert(conns[k].0 == key);
        if pkt.op == 3 {
            let out = conns.remove(k);
            assert forall|i: int| 0 <= i < out.len() implies (#[trigger] out[i]).0 != key by {
                if i < k {
                    assert(conns[i].0 != conns[k].0);
                } else {
                    assert(conns[k].0 != conns[i + 1].0);
                }
            }
        }
    }
}

proof fn lemma_shows(m: MemView, q: VirtQueue)
    requires
        q.put_used_idx(m).1 is Ok,
        q.used_ring_addr + 3 <= u64::MAX,
    ensures
        queue::shown(q.put_used_idx(m).0, q) == q.last_used_idx,
{
    let at = q.used_ring_addr + 2;
    let n = q.put_used_idx(m).0;
    let b = bytes::le16_bytes(q.last_used_idx);
    assert(laws::byte_at(n, at) == b[0] && laws::byte_at(n, at + 1) == b[1]);
    bytes::law_le16_round_trip(q.last_used_idx);
}

proof fn lemma_tx_all(
    m: MemView,
    q: VirtQueue,
    conns: Seq<Entry>,
    guest_cid: u64,
    avail: u16,
    processed: bool,
    now: u64,
)
    ensures
        ({
            let run = vsock::tx_run(m, q, conns, guest_cid, avail, processed, now);
            let n = transport::ring_distance(q.last_avail_idx, avail) as int;
            &&& run.result is Ok ==> run.queue == queue::moved(q, n) && run.result == Ok::<
                bool,
                QueueFault,
            >(processed || n > 0)
            &&& run.queue == (VirtQueue {
                last_avail_idx: run.queue.last_avail_idx,
                last_used_idx: run.queue.last_used_idx,
                ..q
            })
        }),
    decreases transport::ring_distance(q.last_avail_idx, avail),
{
    queue::lemma_move_on(q, avail);
    if q.last_avail_idx != avail {
        match q.avail_head(m) {
            Err(_) => {},
            Ok(head) => {
                let after = match vsock::tx_packet(m, q, head) {
                    Some((pkt, payload)) => vsock::dispatched(conns, guest_cid, pkt, payload, now),
                    None => conns,
                };
                let (m1, r) = q.put_used(m, head, 0);
                if r is Ok {
                    lemma_tx_all(m1, q.advanced(), after, guest_cid, avail, true, now);
                    assert(vsock::tx_run(m, q, conns, guest_cid, avail, processed, now)
                        == vsock::tx_run(m1, q.advanced(), after, guest_cid, avail, true, now));
                }
            },
        }
    }
}

/// A chain that is too short for the header of a packet goes to no connection. It is
/// given back, and the work goes on behind it.
pub proof fn law_short_packets_are_dropped(
    m: MemView,
    q: VirtQueue,
    conns: Seq<Entry>,
    guest_cid: u64,
    avail: u16,
    processed: bool,
    now: u64,
)
    requires
        q.last_avail_idx != avail,
        queue::laid_out(m, q),
        queue::head_at(m, q, 0) < q.size,
        queue::desc_at(m, q, queue::head_at(m, q, 0)).len < 44,
    ensures
        exists|n: MemView| #[trigger]
            queue::only_used_changed(m, n, q) && queue::is_used(
                n,
                q,
                0,
                queue::head_at(m, q, 0),
                0,
            ) && vsock::tx_run(m, q, conns, guest_cid, avail, processed, now) == vsock::tx_run(
                n,
                queue::moved(q, 1),
                conns,
                guest_cid,
                avail,
                true,
                now,
            ),
{
    let head = queue::head_at(m, q, 0) as u16;
    queue::lemma_moved(q, 0);
    queue::lemma_head(m, q, 0);
    queue::lemma_desc(m, q, head);
    assert(vsock::tx_packet(m, q, head) is None);
    queue::lemma_put_used(m, q, 0, head, 0);
    let n = q.put_used(m, head, 0).0;
    assert(queue::only_used_changed(m, n, q));
}

} // verus!
