//! What requests to the block device do to the disk and to guest memory.

use crate::devices::block::{
    self, BlockRunView, DiskOpView, DiskReplyView, DiskView, RequestView, StopView, Stopped,
};
use crate::laws;
use crate::laws::{buffers, queue};
use crate::memory::{MemView, MemoryError};
use crate::transport::{QueueFault, VirtQueue, VirtqDesc};
use vstd::prelude::*;

verus! {

/// A disk: its bytes, and where the next operation starts.
pub struct Disk {
    pub data: Seq<u8>,
    pub pos: int,
}

/// What a disk does with an operation: the disk after it, and its reply.
pub open spec fn done(disk: Disk, op: DiskOpView) -> (Disk, DiskReplyView) {
    match op {
        DiskOpView::Seek(o) => (Disk { pos: o as int, ..disk }, DiskReplyView::Done),
        DiskOpView::Read(n) => (
            Disk { pos: disk.pos + n, ..disk },
            DiskReplyView::Data(disk.data.subrange(disk.pos, disk.pos + n)),
        ),
        DiskOpView::Write(b) => (
            Disk {
                data: disk.data.subrange(0, disk.pos) + b + disk.data.skip(
                    disk.pos + b.len() as int,
                ),
                pos: disk.pos + b.len() as int,
            },
            DiskReplyView::Done,
        ),
        DiskOpView::Sync => (disk, DiskReplyView::Done),
    }
}

/// Lets a disk do the next `n` operations that the work on a queue asks for.
pub open spec fn played(d: DiskView, s: Stopped, disk: Disk, n: nat) -> (Stopped, Disk)
    decreases n,
{
    if n == 0 {
        (s, disk)
    } else {
        match s.stop {
            StopView::Finished(_) => (s, disk),
            StopView::Disk(op) => {
                let (disk1, reply) = done(disk, op);
                played(d, d.resumed(s.mem, s.run, reply), disk1, (n - 1) as nat)
            },
        }
    }
}

/// Whether the next chain is a request of this kind for this sector: a header of
/// 16 bytes for the device to read, data buffers, and a buffer for the status.
#[verifier::opaque]
pub open spec fn is_request(
    m: MemView,
    q: VirtQueue,
    c: Seq<VirtqDesc>,
    kind: int,
    sector: int,
) -> bool {
    &&& queue::laid_out(m, q)
    &&& queue::is_chain(m, q, queue::head_at(m, q, 0), c)
    &&& buffers::separate(m, q, c)
    &&& c.len() >= 2
    &&& !queue::for_device(c[0])
    &&& c[0].len >= 16
    &&& laws::u32_at(m, c[0].addr as int) == kind
    &&& laws::u64_at(m, c[0].addr + 8) == sector
    &&& queue::for_device(c.last())
    &&& c.last().len >= 1
}

/// The data buffers of a request.
pub open spec fn data_of(c: Seq<VirtqDesc>) -> Seq<VirtqDesc> {
    c.subrange(1, c.len() - 1)
}

/// How many bytes the data buffers of a request hold.
pub open spec fn size_of(c: Seq<VirtqDesc>) -> int {
    buffers::before(data_of(c), data_of(c).len() as int)
}

/// Whether the next request has ended with this status, and the driver is told
/// that so many bytes were stored. Only the buffers behind the header and the used
/// ring may have changed.
#[verifier::opaque]
pub open spec fn answered(
    m: MemView,
    n: MemView,
    q: VirtQueue,
    c: Seq<VirtqDesc>,
    status: u8,
    stored: int,
) -> bool {
    &&& laws::byte_at(n, c.last().addr as int) == status
    &&& queue::is_used(n, q, 0, queue::head_at(m, q, 0), stored)
    &&& buffers::only_changed(m, n, q, c.skip(1))
}

/// The work that goes on behind the next request.
pub open spec fn behind(run: BlockRunView) -> BlockRunView {
    BlockRunView { queue: queue::moved(run.queue, 1), processed: true, active: None, ..run }
}

/// The request in the next chain as the device holds it.
spec fn request(m: MemView, q: VirtQueue, c: Seq<VirtqDesc>, kind: int, sector: int) -> RequestView {
    RequestView {
        head: queue::head_at(m, q, 0) as u16,
        kind: kind as u32,
        sector: sector as u64,
        data: data_of(c),
        status: c.last(),
        started: false,
        next: 0,
        written: 0,
    }
}

proof fn lemma_parsed(m: MemView, q: VirtQueue, c: Seq<VirtqDesc>, kind: int, sector: int)
    requires
        is_request(m, q, c, kind, sector),
    ensures
        ({
            let head = queue::head_at(m, q, 0) as u16;
            &&& q.avail_head(m) == Ok::<u16, MemoryError>(head)
            &&& block::parsed(m, q, head) == Ok::<RequestView, QueueFault>(
                request(m, q, c, kind, sector),
            )
        }),
{
    reveal(is_request);
    reveal(block::parsed);
    let head = queue::head_at(m, q, 0) as u16;
    queue::lemma_moved(q, 0);
    queue::lemma_head(m, q, 0);
    queue::lemma_desc(m, q, head);
    queue::lemma_flags(c[0]);
    queue::lemma_flags(c.last());
    let rest = c.skip(1);
    queue::lemma_chain_tail(m, q, head, c);
    queue::lemma_chain(m, q, c[0].next, rest, 0);
    assert(rest.drop_last() =~= data_of(c));
    assert(rest.last() == c.last());
    reveal(buffers::separate);
    assert(queue::held(m, c[0]));
    let at = c[0].addr as int;
    let b = m.slice(at, 16);
    assert(b[0] == laws::byte_at(m, at) && b[1] == laws::byte_at(m, at + 1) && b[2]
        == laws::byte_at(m, at + 2) && b[3] == laws::byte_at(m, at + 3));
    assert(b[8] == laws::byte_at(m, at + 8) && b[9] == laws::byte_at(m, at + 9) && b[10]
        == laws::byte_at(m, at + 10) && b[11] == laws::byte_at(m, at + 11));
    assert(b[12] == laws::byte_at(m, at + 12) && b[13] == laws::byte_at(m, at + 13) && b[14]
        == laws::byte_at(m, at + 14) && b[15] == laws::byte_at(m, at + 15));
    assert(crate::bytes::le32(b, 0) == laws::u32_at(m, at));
    assert(crate::bytes::le64(b, 8) == laws::u64_at(m, at + 8));
}

/// The work starts with the next request at hand.
proof fn lemma_begins(
    d: DiskView,
    m: MemView,
    run: BlockRunView,
    c: Seq<VirtqDesc>,
    kind: int,
    sector: int,
)
    requires
        run.active is None,
        run.queue.last_avail_idx != run.avail,
        is_request(m, run.queue, c, kind, sector),
    ensures
        d.go_on(m, run) == d.go_on(
            m,
            BlockRunView { active: Some(request(m, run.queue, c, kind, sector)), ..run },
        ),
{
    reveal(is_request);
    lemma_parsed(m, run.queue, c, kind, sector);
}

/// The end of a request, from guest memory `a` on in which data buffers may have
/// been filled.
proof fn lemma_ends(
    d: DiskView,
    m: MemView,
    a: MemView,
    run: BlockRunView,
    c: Seq<VirtqDesc>,
    kind: int,
    sector: int,
    r: RequestView,
    status: u8,
)
    requires
        run.queue.last_avail_idx != run.avail,
        run.active is None,
        is_request(m, run.queue, c, kind, sector),
        buffers::only_changed_from(m, a, data_of(c), 0),
        r.head == queue::head_at(m, run.queue, 0),
        r.status == c.last(),
        r.written < u32::MAX,
        block::needs(d.read_only, d.device_id, a, r) == (a, r, block::Need::End(Some(status))),
    ensures
        ({
            let n = ending(a, run.queue, c, r, status);
            &&& d.go_on(a, BlockRunView { active: Some(r), ..run }) == d.go_on(n, behind(run))
            &&& answered(m, n, run.queue, c, status, r.written + 1)
            &&& forall|addr: int|
                a.base <= addr < a.end() && !queue::in_used(run.queue, addr) && addr
                    != c.last().addr ==> #[trigger] laws::byte_at(n, addr) == laws::byte_at(a, addr)
        }),
{
    reveal(is_request);
    let q = run.queue;
    let head = r.head;
    let st = c.last().addr as int;
    let data = data_of(c);
    buffers::lemma_separate_part(m, q, c, 1, c.len() - 1);
    buffers::lemma_same_descs(m, a, q, data, 0);
    queue::lemma_moved(q, 0);
    assert(a.in_bounds(st, 1) && buffers::off_queue(q, c.last())) by {
        reveal(buffers::separate);
        reveal(buffers::only_changed_from);
        assert(queue::held(m, c[c.len() - 1]));
        assert(buffers::off_queue(q, c[c.len() - 1]));
    }
    let a1 = a.store(st, seq![status]);
    assert(block::ended(a, r, Some(status)) == (a1, status, (r.written + 1) as u32)) by {
        reveal(block::ended);
    }
    buffers::lemma_separate_part(m, q, c, c.len() - 1, c.len() as int);
    let last = c.subrange(c.len() - 1, c.len() as int);
    assert(last[0] == c.last());
    assert(a.base == m.base && a.data.len() == m.data.len()) by {
        reveal(buffers::only_changed_from);
    }
    buffers::lemma_separate_stays(m, a, q, last);
    buffers::lemma_store(a, q, last, 0, seq![status]);
    queue::lemma_put_used(a1, q, 0, head, (r.written + 1) as u32);
    let a2 = q.put_used(a1, head, (r.written + 1) as u32).0;
    queue::lemma_same_numbers(a1, a2, q);
    queue::lemma_chain_stays(m, a2, q, head as int, c);
    let q1 = q.advanced();
    queue::lemma_chain(a2, q, head, c, 0);
    lemma_chain_positions(a2, q, q1, head, 0);
    let n = a2.store(st, seq![status]);
    assert(block::settled(a1, q, head, status, (r.written + 1) as u32) == (
        n,
        q1,
        Ok::<(), QueueFault>(()),
    ));
    assert(laws::byte_at(n, st) == seq![status][0]);
    assert(queue::is_used(n, q, 0, head as int, r.written + 1)) by {
        reveal(queue::is_used);
        let at = queue::used_entry(q, 0);
        let i = queue::ring_index(q.last_used_idx, 0) % (q.size as int);
        assert(0 <= i < q.size);
        assert(laws::byte_at(n, at) == laws::byte_at(a2, at) && laws::byte_at(n, at + 1)
            == laws::byte_at(a2, at + 1) && laws::byte_at(n, at + 2) == laws::byte_at(a2, at + 2)
            && laws::byte_at(n, at + 3) == laws::byte_at(a2, at + 3));
        assert(laws::byte_at(n, at + 4) == laws::byte_at(a2, at + 4) && laws::byte_at(n, at + 5)
            == laws::byte_at(a2, at + 5) && laws::byte_at(n, at + 6) == laws::byte_at(a2, at + 6)
            && laws::byte_at(n, at + 7) == laws::byte_at(a2, at + 7));
    }
    assert forall|addr: int|
        a.base <= addr < a.end() && !queue::in_used(q, addr) && addr
            != c.last().addr implies #[trigger] laws::byte_at(n, addr) == laws::byte_at(a, addr) by {
        assert(laws::byte_at(a2, addr) == laws::byte_at(a1, addr));
    }
    let tail = c.skip(1);
    assert(buffers::only_changed(m, n, q, tail)) by {
        reveal(buffers::only_changed_from);
        assert forall|addr: int|
            m.base <= addr < m.end() && !buffers::in_some(tail, addr) && !queue::in_used(
                q,
                addr,
            ) implies #[trigger] laws::byte_at(n, addr) == laws::byte_at(m, addr) by {
            assert forall|i: int| 0 <= i < data.len() implies !buffers::inside(
                #[trigger] data[i],
                addr,
            ) by {
                assert(tail[i] == data[i]);
            }
            assert(tail[tail.len() - 1] == c.last());
            assert(!buffers::inside(tail[tail.len() - 1], addr));
            assert(laws::byte_at(n, addr) == laws::byte_at(a, addr));
        }
    }
    assert(answered(m, n, q, c, status, r.written + 1)) by {
        reveal(answered);
    }
    lemma_end_turn(d, a, a1, n, run, r, status);
}

/// Guest memory after the end of a request.
spec fn ending(a: MemView, q: VirtQueue, c: Seq<VirtqDesc>, r: RequestView, status: u8) -> MemView {
    let st = c.last().addr as int;
    q.put_used(a.store(st, seq![status]), r.head, (r.written + 1) as u32).0.store(st, seq![status])
}

proof fn lemma_end_turn(
    d: DiskView,
    a: MemView,
    a1: MemView,
    n: MemView,
    run: BlockRunView,
    r: RequestView,
    status: u8,
)
    requires
        run.queue.last_avail_idx != run.avail,
        run.active is None,
        r.written < u32::MAX,
        block::needs(d.read_only, d.device_id, a, r) == (a, r, block::Need::End(Some(status))),
        block::ended(a, r, Some(status)) == (a1, status, (r.written + 1) as u32),
        block::settled(a1, run.queue, r.head, status, (r.written + 1) as u32) == (
            n,
            run.queue.advanced(),
            Ok::<(), QueueFault>(()),
        ),
    ensures
        d.go_on(a, BlockRunView { active: Some(r), ..run }) == d.go_on(n, behind(run)),
{
    queue::lemma_moved(run.queue, 0);
    assert(run.queue.advanced() == queue::moved(run.queue, 1));
    let w = BlockRunView { active: Some(r), ..run };
    assert(d.go_on(a, w) == d.after_request(a1, w, r.head, status, (r.written + 1) as u32));
    assert((BlockRunView {
        processed: true,
        ..(BlockRunView { queue: run.queue.advanced(), active: None, ..w })
    }) == behind(run));
}

/// A chain does not rest on the queue's positions.
proof fn lemma_chain_positions(m: MemView, q: VirtQueue, p: VirtQueue, idx: u16, visited: nat)
    requires
        p.size == q.size,
        p.desc_table_addr == q.desc_table_addr,
    ensures
        p.chain(m, idx, visited) == q.chain(m, idx, visited),
    decreases q.size + 1 - visited,
{
    match q.desc(m, idx) {
        Ok(d) => if visited + 1 <= q.size && d.spec_has_next() {
            lemma_chain_positions(m, q, p, d.next, visited + 1);
        },
        Err(_) => {},
    }
}

/// Whether every buffer is for the device to write, or none is.
pub open spec fn all_for_device(data: Seq<VirtqDesc>, yes: bool) -> bool {
    forall|i: int| 0 <= i < data.len() ==> queue::for_device(#[trigger] data[i]) == yes
}

/// The work with a started request of which `k` buffers are done.
spec fn at_buffer(run: BlockRunView, r: RequestView, k: int, written: int) -> BlockRunView {
    BlockRunView {
        active: Some(
            RequestView { started: true, next: k as nat, written: written as u32, ..r },
        ),
        ..run
    }
}

/// Guest memory after bytes were stored into the buffers from `k` on.
spec fn stored(m: MemView, data: Seq<VirtqDesc>, b: Seq<u8>, k: int) -> MemView
    decreases data.len() - k,
{
    if k >= data.len() {
        m
    } else {
        stored(
            m.store(
                data[k].addr as int,
                b.subrange(buffers::before(data, k), buffers::before(data, k + 1)),
            ),
            data,
            b,
            k + 1,
        )
    }
}

proof fn lemma_seek(d: DiskView, m: MemView, run: BlockRunView, r: RequestView, disk: Disk, n: nat)
    requires
        run.active is None,
        !r.started,
        r.next == 0,
        r.written == 0,
        r.kind == 0 || (r.kind == 1 && !d.read_only),
        r.sector * 512 <= u64::MAX,
    ensures
        played(d, d.go_on(m, BlockRunView { active: Some(r), ..run }), disk, n + 1) == played(
            d,
            d.go_on(m, at_buffer(run, r, 0, 0)),
            Disk { pos: r.sector * 512, ..disk },
            n,
        ),
{
    reveal(block::needs);
    reveal(block::replied);
    let w = BlockRunView { active: Some(r), ..run };
    let s = d.go_on(m, w);
    assert(s == Stopped { mem: m, run: w, stop: StopView::Disk(
        DiskOpView::Seek((r.sector * 512) as u64),
    ) });
    assert(d.resumed(m, w, DiskReplyView::Done) == d.go_on(m, at_buffer(run, r, 0, 0)));
    assert((n + 1) as nat - 1 == n);
}

proof fn lemma_reads(
    d: DiskView,
    m: MemView,
    run: BlockRunView,
    r: RequestView,
    disk: Disk,
    off: int,
    k: int,
)
    requires
        run.active is None,
        r.kind == 0,
        queue::laid_out(m, run.queue),
        buffers::separate(m, run.queue, r.data),
        all_for_device(r.data, true),
        0 <= off,
        off + buffers::before(r.data, r.data.len() as int) <= disk.data.len(),
        buffers::before(r.data, r.data.len() as int) <= u32::MAX,
        0 <= k <= r.data.len(),
        disk.pos == off + buffers::before(r.data, k),
    ensures
        ({
            let total = buffers::before(r.data, r.data.len() as int);
            let b = disk.data.subrange(off, off + total);
            let n = stored(m, r.data, b, k);
            &&& played(
                d,
                d.go_on(m, at_buffer(run, r, k, buffers::before(r.data, k))),
                disk,
                (r.data.len() - k) as nat,
            ) == (
                d.go_on(n, at_buffer(run, r, r.data.len() as int, total)),
                Disk { pos: off + total, ..disk },
            )
            &&& buffers::hold_from(n, r.data, b, k)
            &&& buffers::only_changed_from(m, n, r.data, k)
        }),
    decreases r.data.len() - k,
{
    let q = run.queue;
    let total = buffers::before(r.data, r.data.len() as int);
    let b = disk.data.subrange(off, off + total);
    if k < r.data.len() {
        let at = buffers::before(r.data, k);
        let len = r.data[k].len as int;
        buffers::lemma_before(r.data, 0, k);
        buffers::lemma_before(r.data, k + 1, r.data.len() as int);
        assert(buffers::before(r.data, k + 1) == at + len);
        let part = b.subrange(at, at + len);
        assert(disk.data.subrange(disk.pos, disk.pos + len) =~= part);
        buffers::lemma_store(m, q, r.data, k, part);
        let m1 = m.store(r.data[k].addr as int, part);
        lemma_read_turn(d, m, m1, run, r, k, at, part);
        let disk1 = Disk { pos: disk.pos + len, ..disk };
        lemma_reads(d, m1, run, r, disk1, off, k + 1);
        buffers::lemma_hold_step(m, m1, stored(m, r.data, b, k), q, r.data, b, k, len);
        let s = d.go_on(m, at_buffer(run, r, k, at));
        assert(played(d, s, disk, (r.data.len() - k) as nat) == played(
            d,
            d.go_on(m1, at_buffer(run, r, k + 1, at + len)),
            disk1,
            (r.data.len() - (k + 1)) as nat,
        ));
    } else {
        buffers::lemma_rest_empty(m, r.data, b, k);
    }
}

proof fn lemma_read_turn(
    d: DiskView,
    m: MemView,
    m1: MemView,
    run: BlockRunView,
    r: RequestView,
    k: int,
    at: int,
    part: Seq<u8>,
)
    requires
        run.active is None,
        r.kind == 0,
        0 <= k < r.data.len(),
        queue::for_device(r.data[k]),
        part.len() == r.data[k].len,
        0 <= at,
        at + r.data[k].len <= u32::MAX,
        m.write(r.data[k].addr, part) == (m1, Ok::<(), MemoryError>(())),
    ensures
        ({
            let w = at_buffer(run, r, k, at);
            &&& d.go_on(m, w) == Stopped {
                mem: m,
                run: w,
                stop: StopView::Disk(DiskOpView::Read(r.data[k].len as usize)),
            }
            &&& d.resumed(m, w, DiskReplyView::Data(part)) == d.go_on(
                m1,
                at_buffer(run, r, k + 1, at + r.data[k].len),
            )
        }),
{
    reveal(block::needs);
    reveal(block::replied);
    queue::lemma_flags(r.data[k]);
    let w = at_buffer(run, r, k, at);
    assert(w.active->0.data[k] == r.data[k]);
}

/// A read request fills all its data buffers, one behind the other, with the bytes
/// of the disk from its sector on, and leaves the disk as it is. It ends with
/// status 0, its chain is given back with the bytes of the buffers and the status,
/// and the work goes on behind it. One operation starts it, and one fills each
/// buffer.
pub proof fn law_read_fills_all_buffers(
    d: DiskView,
    m: MemView,
    run: BlockRunView,
    c: Seq<VirtqDesc>,
    sector: int,
    disk: Disk,
)
    requires
        run.active is None,
        run.queue.last_avail_idx != run.avail,
        is_request(m, run.queue, c, 0, sector),
        all_for_device(data_of(c), true),
        sector * 512 + size_of(c) <= disk.data.len() <= u64::MAX,
        size_of(c) < u32::MAX,
    ensures
        exists|n: MemView| #[trigger]
            answered(m, n, run.queue, c, 0, size_of(c) + 1) && buffers::hold(
                n,
                data_of(c),
                disk.data.skip(sector * 512),
            ) && played(d, d.go_on(m, run), disk, (1 + data_of(c).len()) as nat) == (
                d.go_on(n, behind(run)),
                Disk { pos: sector * 512 + size_of(c), ..disk },
            ),
{
    let q = run.queue;
    let data = data_of(c);
    let r = request(m, q, c, 0, sector);
    let off = sector * 512;
    let total = size_of(c);
    let b = disk.data.subrange(off, off + total);
    lemma_begins(d, m, run, c, 0, sector);
    lemma_head_fits(m, q, c, 0, sector);
    buffers::lemma_before(data, 0, data.len() as int);
    assert(0 <= sector <= u64::MAX && buffers::separate(m, q, c) && queue::laid_out(m, q)
        && c.len() >= 2 && c.last().len >= 1) by {
        reveal(is_request);
    }
    lemma_seek(d, m, run, r, disk, data.len());
    buffers::lemma_separate_part(m, q, c, 1, c.len() - 1);
    lemma_reads(d, m, run, r, Disk { pos: off, ..disk }, off, 0);
    let a = stored(m, data, b, 0);
    let e = RequestView { started: true, next: data.len(), written: total as u32, ..r };
    assert(block::needs(d.read_only, d.device_id, a, e) == (
        a,
        e,
        block::Need::End(Some(0u8)),
    )) by {
        reveal(block::needs);
    }
    lemma_ends(d, m, a, run, c, 0, sector, e, 0);
    let n = ending(a, q, c, e, 0);
    assert(a.base == m.base && a.data.len() == m.data.len()) by {
        reveal(buffers::only_changed_from);
    }
    lemma_still_held(m, a, n, q, c, b);
    lemma_hold_longer(n, data, b, disk.data.skip(off));
    assert(answered(m, n, q, c, 0, total + 1));
}

/// What buffers hold of bytes that are as many as they have room for, they hold of
/// more.
proof fn lemma_hold_longer(n: MemView, data: Seq<VirtqDesc>, b: Seq<u8>, whole: Seq<u8>)
    requires
        buffers::hold(n, data, b),
        b.len() == buffers::before(data, data.len() as int),
        b.len() <= whole.len(),
        forall|i: int| 0 <= i < b.len() ==> #[trigger] b[i] == whole[i],
    ensures
        buffers::hold(n, data, whole),
{
    reveal(buffers::hold_from);
    assert forall|i: int, j: int|
        #![trigger laws::byte_at(n, data[i].addr + j)]
        0 <= i < data.len() && 0 <= j < data[i].len && buffers::before(data, i) + j
            < whole.len() implies laws::byte_at(n, data[i].addr + j) == whole[buffers::before(
        data,
        i,
    ) + j] by {
        buffers::lemma_before(data, i + 1, data.len() as int);
        buffers::lemma_before(data, 0, i);
        assert(buffers::before(data, i + 1) == buffers::before(data, i) + data[i].len);
        assert(b[buffers::before(data, i) + j] == whole[buffers::before(data, i) + j]);
    }
}

/// The end of a request leaves its data buffers.
proof fn lemma_still_held(
    m: MemView,
    a: MemView,
    n: MemView,
    q: VirtQueue,
    c: Seq<VirtqDesc>,
    b: Seq<u8>,
)
    requires
        buffers::separate(m, q, c),
        c.len() >= 2,
        c.last().len >= 1,
        a.base == m.base,
        a.data.len() == m.data.len(),
        buffers::hold(a, data_of(c), b),
        forall|addr: int|
            a.base <= addr < a.end() && !queue::in_used(q, addr) && addr != c.last().addr
                ==> #[trigger] laws::byte_at(n, addr) == laws::byte_at(a, addr),
    ensures
        buffers::hold(n, data_of(c), b),
{
    reveal(buffers::separate);
    reveal(buffers::hold_from);
    let data = data_of(c);
    assert forall|i: int, j: int|
        #![trigger laws::byte_at(n, data[i].addr + j)]
        0 <= i < data.len() && 0 <= j < data[i].len && buffers::before(data, i) + j
            < b.len() implies laws::byte_at(n, data[i].addr + j) == b[buffers::before(data, i)
        + j] by {
        assert(data[i] == c[i + 1]);
        assert(queue::held(m, c[i + 1]) && buffers::off_queue(q, c[i + 1]));
        assert(buffers::off(
            c[i + 1].addr as int,
            c[i + 1].len as int,
            c[c.len() - 1].addr as int,
            c[c.len() - 1].len as int,
        ));
        assert(laws::byte_at(n, data[i].addr + j) == laws::byte_at(a, data[i].addr + j));
    }
}

proof fn lemma_head_fits(m: MemView, q: VirtQueue, c: Seq<VirtqDesc>, kind: int, sector: int)
    requires
        is_request(m, q, c, kind, sector),
    ensures
        0 <= queue::head_at(m, q, 0) <= 0xffff,
        0 <= kind <= u32::MAX,
        0 <= sector <= u64::MAX,
{
    reveal(is_request);
    queue::lemma_head(m, q, 0);
}

proof fn lemma_unchanged(m: MemView, data: Seq<VirtqDesc>)
    ensures
        buffers::only_changed_from(m, m, data, 0),
{
    reveal(buffers::only_changed_from);
}

/// Whether the disk has taken the bytes of the first `k` buffers from `off` on, one
/// buffer behind the other, and is as it was everywhere else.
#[verifier::opaque]
pub open spec fn took(
    before: Seq<u8>,
    after: Seq<u8>,
    m: MemView,
    data: Seq<VirtqDesc>,
    off: int,
    k: int,
) -> bool {
    &&& after.len() == before.len()
    &&& forall|i: int, j: int|
        #![trigger laws::byte_at(m, data[i].addr + j)]
        0 <= i < k && 0 <= j < data[i].len ==> after[off + buffers::before(data, i) + j]
            == laws::byte_at(m, data[i].addr + j)
    &&& forall|p: int|
        0 <= p < before.len() && !(off <= p < off + buffers::before(data, k))
            ==> #[trigger] after[p] == before[p]
}

proof fn lemma_write_turn(
    d: DiskView,
    m: MemView,
    run: BlockRunView,
    r: RequestView,
    k: int,
)
    requires
        run.active is None,
        r.kind == 1,
        !d.read_only,
        0 <= k < r.data.len(),
        !queue::for_device(r.data[k]),
        queue::held(m, r.data[k]),
    ensures
        ({
            let w = at_buffer(run, r, k, 0);
            let b = m.slice(r.data[k].addr as int, r.data[k].len as int);
            &&& d.go_on(m, w) == Stopped {
                mem: m,
                run: w,
                stop: StopView::Disk(DiskOpView::Write(b)),
            }
            &&& d.resumed(m, w, DiskReplyView::Done) == d.go_on(m, at_buffer(run, r, k + 1, 0))
        }),
{
    reveal(block::needs);
    reveal(block::replied);
    queue::lemma_flags(r.data[k]);
    let w = at_buffer(run, r, k, 0);
    assert(w.active->0.data[k] == r.data[k]);
}

proof fn lemma_took_more(
    start: Seq<u8>,
    now: Seq<u8>,
    m: MemView,
    data: Seq<VirtqDesc>,
    off: int,
    k: int,
)
    requires
        took(start, now, m, data, off, k),
        0 <= k < data.len(),
        0 <= off,
        off + buffers::before(data, data.len() as int) <= start.len(),
        queue::held(m, data[k]),
    ensures
        ({
            let pos = off + buffers::before(data, k);
            let b = m.slice(data[k].addr as int, data[k].len as int);
            took(
                start,
                now.subrange(0, pos) + b + now.skip(pos + b.len() as int),
                m,
                data,
                off,
                k + 1,
            )
        }),
{
    reveal(took);
    let pos = off + buffers::before(data, k);
    let b = m.slice(data[k].addr as int, data[k].len as int);
    queue::lemma_slice(m, data[k].addr as int, data[k].len as int);
    buffers::lemma_before(data, 0, k);
    buffers::lemma_before(data, k + 1, data.len() as int);
    assert(buffers::before(data, k + 1) == buffers::before(data, k) + data[k].len);
    let after = now.subrange(0, pos) + b + now.skip(pos + b.len() as int);
    assert forall|i: int, j: int|
        #![trigger laws::byte_at(m, data[i].addr + j)]
        0 <= i < k + 1 && 0 <= j < data[i].len implies after[off + buffers::before(data, i) + j]
        == laws::byte_at(m, data[i].addr + j) by {
        if i < k {
            buffers::lemma_before(data, 0, i);
            buffers::lemma_before(data, i + 1, k);
            assert(buffers::before(data, i + 1) == buffers::before(data, i) + data[i].len);
        } else {
            assert(after[pos + j] == b[j]);
        }
    }
}

proof fn lemma_writes(
    d: DiskView,
    m: MemView,
    run: BlockRunView,
    r: RequestView,
    start: Seq<u8>,
    disk: Disk,
    off: int,
    k: int,
)
    requires
        run.active is None,
        r.kind == 1,
        !d.read_only,
        buffers::separate(m, run.queue, r.data),
        all_for_device(r.data, false),
        0 <= off,
        off + buffers::before(r.data, r.data.len() as int) <= start.len(),
        0 <= k <= r.data.len(),
        disk.pos == off + buffers::before(r.data, k),
        took(start, disk.data, m, r.data, off, k),
    ensures
        ({
            let (s, after) = played(
                d,
                d.go_on(m, at_buffer(run, r, k, 0)),
                disk,
                (r.data.len() - k) as nat,
            );
            &&& s == d.go_on(m, at_buffer(run, r, r.data.len() as int, 0))
            &&& took(start, after.data, m, r.data, off, r.data.len() as int)
            &&& after.pos == off + buffers::before(r.data, r.data.len() as int)
        }),
    decreases r.data.len() - k,
{
    if k < r.data.len() {
        assert(queue::held(m, r.data[k])) by {
            reveal(buffers::separate);
        }
        lemma_write_turn(d, m, run, r, k);
        lemma_took_more(start, disk.data, m, r.data, off, k);
        let b = m.slice(r.data[k].addr as int, r.data[k].len as int);
        assert(buffers::before(r.data, k + 1) == buffers::before(r.data, k) + r.data[k].len);
        let disk1 = done(disk, DiskOpView::Write(b)).0;
        lemma_writes(d, m, run, r, start, disk1, off, k + 1);
        let s = d.go_on(m, at_buffer(run, r, k, 0));
        assert(played(d, s, disk, (r.data.len() - k) as nat) == played(
            d,
            d.go_on(m, at_buffer(run, r, k + 1, 0)),
            disk1,
            (r.data.len() - (k + 1)) as nat,
        ));
    }
}

/// A write request puts the bytes of all its data buffers, one behind the other,
/// onto the disk from its sector on, and leaves the rest of the disk as it is. It
/// ends with status 0 as the only byte stored, and the work goes on behind it.
pub proof fn law_write_takes_all_buffers(
    d: DiskView,
    m: MemView,
    run: BlockRunView,
    c: Seq<VirtqDesc>,
    sector: int,
    disk: Disk,
)
    requires
        run.active is None,
        run.queue.last_avail_idx != run.avail,
        !d.read_only,
        is_request(m, run.queue, c, 1, sector),
        all_for_device(data_of(c), false),
        sector * 512 + size_of(c) <= disk.data.len() <= u64::MAX,
    ensures
        ({
            let (s, after) = played(d, d.go_on(m, run), disk, (1 + data_of(c).len()) as nat);
            &&& took(
                disk.data,
                after.data,
                m,
                data_of(c),
                sector * 512,
                data_of(c).len() as int,
            )
            &&& exists|n: MemView| #[trigger]
                answered(m, n, run.queue, c, 0, 1) && s == d.go_on(n, behind(run))
        }),
{
    let q = run.queue;
    let data = data_of(c);
    let r = request(m, q, c, 1, sector);
    let off = sector * 512;
    lemma_begins(d, m, run, c, 1, sector);
    lemma_head_fits(m, q, c, 1, sector);
    buffers::lemma_before(data, 0, data.len() as int);
    assert(buffers::separate(m, q, c) && c.len() >= 2) by {
        reveal(is_request);
    }
    lemma_seek(d, m, run, r, disk, data.len());
    buffers::lemma_separate_part(m, q, c, 1, c.len() - 1);
    assert(took(disk.data, disk.data, m, data, off, 0)) by {
        reveal(took);
    }
    lemma_writes(d, m, run, r, disk.data, Disk { pos: off, ..disk }, off, 0);
    let e = RequestView { started: true, next: data.len(), written: 0, ..r };
    assert(block::needs(d.read_only, d.device_id, m, e) == (
        m,
        e,
        block::Need::End(Some(0u8)),
    )) by {
        reveal(block::needs);
    }
    lemma_unchanged(m, data);
    lemma_ends(d, m, m, run, c, 1, sector, e, 0);
    assert(answered(m, ending(m, q, c, e, 0), q, c, 0, 1));
}

/// A flush request has the disk write out what it holds back, ends with status 0
/// as the only byte stored, and the work goes on behind it.
pub proof fn law_flush_reaches_disk(
    d: DiskView,
    m: MemView,
    run: BlockRunView,
    c: Seq<VirtqDesc>,
    sector: int,
)
    requires
        run.active is None,
        run.queue.last_avail_idx != run.avail,
        is_request(m, run.queue, c, 4, sector),
    ensures
        ({
            let s = d.go_on(m, run);
            &&& s.stop == StopView::Disk(DiskOpView::Sync)
            &&& exists|n: MemView| #[trigger]
                answered(m, n, run.queue, c, 0, 1) && d.resumed(s.mem, s.run, DiskReplyView::Done)
                    == d.go_on(n, behind(run))
        }),
{
    let q = run.queue;
    let r = request(m, q, c, 4, sector);
    lemma_begins(d, m, run, c, 4, sector);
    lemma_head_fits(m, q, c, 4, sector);
    let e = RequestView { started: true, ..r };
    let w = BlockRunView { active: Some(r), ..run };
    assert(block::needs(d.read_only, d.device_id, m, r) == (
        m,
        r,
        block::Need::Disk(DiskOpView::Sync),
    ) && block::needs(d.read_only, d.device_id, m, e) == (m, e, block::Need::End(Some(0u8)))
        && block::replied(m, r, DiskReplyView::Done) == (m, Some(e))) by {
        reveal(block::needs);
        reveal(block::replied);
    }
    assert(d.go_on(m, w) == Stopped {
        mem: m,
        run: w,
        stop: StopView::Disk(DiskOpView::Sync),
    });
    assert(d.resumed(m, w, DiskReplyView::Done) == d.go_on(
        m,
        BlockRunView { active: Some(e), ..run },
    ));
    lemma_unchanged(m, data_of(c));
    lemma_ends(d, m, m, run, c, 4, sector, e, 0);
    assert(answered(m, ending(m, q, c, e, 0), q, c, 0, 1));
}

/// A write request to a read-only disk ends with status 1 without asking the disk.
pub proof fn law_write_to_read_only_disk(
    d: DiskView,
    m: MemView,
    run: BlockRunView,
    c: Seq<VirtqDesc>,
    kind: int,
    sector: int,
)
    requires
        run.active is None,
        run.queue.last_avail_idx != run.avail,
        is_request(m, run.queue, c, kind, sector),
        d.read_only,
        kind == 1,
    ensures
        exists|n: MemView| #[trigger]
            answered(m, n, run.queue, c, 1, 1) && d.go_on(m, run) == d.go_on(n, behind(run)),
{
    let q = run.queue;
    let r = request(m, q, c, kind, sector);
    lemma_begins(d, m, run, c, kind, sector);
    lemma_head_fits(m, q, c, kind, sector);
    assert(block::needs(d.read_only, d.device_id, m, r) == (
        m,
        r,
        block::Need::End(Some(1u8)),
    )) by {
        reveal(block::needs);
    }
    lemma_unchanged(m, data_of(c));
    lemma_ends(d, m, m, run, c, kind, sector, r, 1);
    assert(answered(m, ending(m, q, c, r, 1), q, c, 1, 1));
}

/// A request of an unknown kind ends with status 2 without asking the disk.
pub proof fn law_unknown_kind_is_unsupported(
    d: DiskView,
    m: MemView,
    run: BlockRunView,
    c: Seq<VirtqDesc>,
    kind: int,
    sector: int,
)
    requires
        run.active is None,
        run.queue.last_avail_idx != run.avail,
        is_request(m, run.queue, c, kind, sector),
        kind != 0 && kind != 1 && kind != 4 && kind != 8,
    ensures
        exists|n: MemView| #[trigger]
            answered(m, n, run.queue, c, 2, 1) && d.go_on(m, run) == d.go_on(n, behind(run)),
{
    let q = run.queue;
    let r = request(m, q, c, kind, sector);
    lemma_begins(d, m, run, c, kind, sector);
    lemma_head_fits(m, q, c, kind, sector);
    assert(block::needs(d.read_only, d.device_id, m, r) == (
        m,
        r,
        block::Need::End(Some(2u8)),
    )) by {
        reveal(block::needs);
    }
    lemma_unchanged(m, data_of(c));
    lemma_ends(d, m, m, run, c, kind, sector, r, 2);
    assert(answered(m, ending(m, q, c, r, 2), q, c, 2, 1));
}

/// How many bytes of the device's ID go into the buffers from `k` on.
pub open spec fn id_size(data: Seq<VirtqDesc>, id: Seq<u8>, k: int) -> int
    decreases data.len() - k,
{
    if k >= data.len() {
        0
    } else {
        id_part(data[k], id) + id_size(data, id, k + 1)
    }
}

/// How many bytes of the device's ID go into a buffer.
pub open spec fn id_part(d: VirtqDesc, id: Seq<u8>) -> int {
    if d.len < id.len() {
        d.len as int
    } else {
        id.len() as int
    }
}

proof fn lemma_id_size(data: Seq<VirtqDesc>, id: Seq<u8>, k: int)
    ensures
        0 <= id_size(data, id, k),
    decreases data.len() - k,
{
    if k < data.len() {
        lemma_id_size(data, id, k + 1);
    }
}

proof fn lemma_ids(m: MemView, q: VirtQueue, id: Seq<u8>, r: RequestView)
    requires
        queue::laid_out(m, q),
        buffers::separate(m, q, r.data),
        all_for_device(r.data, true),
        r.next <= r.data.len(),
        r.written + id_size(r.data, id, r.next as int) <= u32::MAX,
    ensures
        ({
            let (n, e, st) = block::id_stored(m, id, r);
            &&& st == Some(0u8)
            &&& e == (RequestView {
                next: r.data.len(),
                written: (r.written + id_size(r.data, id, r.next as int)) as u32,
                ..r
            })
            &&& buffers::only_changed_from(m, n, r.data, r.next as int)
            &&& forall|i: int, j: int|
                #![trigger laws::byte_at(n, r.data[i].addr + j)]
                r.next <= i < r.data.len() && 0 <= j < id_part(r.data[i], id) ==> laws::byte_at(
                    n,
                    r.data[i].addr + j,
                ) == id[j]
        }),
    decreases r.data.len() - r.next,
{
    let k = r.next as int;
    if k < r.data.len() {
        let dd = r.data[k];
        queue::lemma_flags(dd);
        let part = id.subrange(0, id_part(dd, id));
        buffers::lemma_store(m, q, r.data, k, part);
        lemma_id_size(r.data, id, k + 1);
        let m1 = m.store(dd.addr as int, part);
        let r1 = RequestView {
            next: r.next + 1,
            written: (r.written + id_part(dd, id)) as u32,
            ..r
        };
        lemma_ids(m1, q, id, r1);
        let n = block::id_stored(m, id, r).0;
        assert(n == block::id_stored(m1, id, r1).0);
        lemma_ids_step(m, m1, n, q, r.data, k, part);
        assert forall|i: int, j: int|
            #![trigger laws::byte_at(n, r.data[i].addr + j)]
            r.next <= i < r.data.len() && 0 <= j < id_part(r.data[i], id) implies laws::byte_at(
            n,
            r.data[i].addr + j,
        ) == id[j] by {
            if i == k {
                assert(part[j] == id[j]);
            }
        }
    } else {
        buffers::lemma_rest_empty(m, r.data, Seq::empty(), k);
    }
}

proof fn lemma_ids_step(
    m: MemView,
    m1: MemView,
    n: MemView,
    q: VirtQueue,
    data: Seq<VirtqDesc>,
    k: int,
    part: Seq<u8>,
)
    requires
        buffers::separate(m, q, data),
        0 <= k < data.len(),
        part.len() <= data[k].len,
        m1 == m.store(data[k].addr as int, part),
        buffers::only_changed_from(m1, n, data, k + 1),
    ensures
        buffers::only_changed_from(m, n, data, k),
        forall|j: int|
            0 <= j < part.len() ==> #[trigger] laws::byte_at(n, data[k].addr + j) == part[j],
{
    reveal(buffers::separate);
    reveal(buffers::only_changed_from);
    assert(queue::held(m, data[k]));
    assert forall|j: int| 0 <= j < part.len() implies #[trigger] laws::byte_at(n, data[k].addr + j)
        == part[j] by {
        assert forall|i: int| k + 1 <= i < data.len() implies !buffers::inside(
            #[trigger] data[i],
            data[k].addr + j,
        ) by {
            assert(buffers::off(
                data[k].addr as int,
                data[k].len as int,
                data[i].addr as int,
                data[i].len as int,
            ));
        }
        assert(laws::byte_at(n, data[k].addr + j) == laws::byte_at(m1, data[k].addr + j));
    }
    assert forall|addr: int|
        m.base <= addr < m.end() && (forall|i: int|
            k <= i < data.len() ==> !buffers::inside(
                #[trigger] data[i],
                addr,
            )) implies #[trigger] laws::byte_at(n, addr) == laws::byte_at(m, addr) by {
        assert(!buffers::inside(data[k], addr));
        assert(laws::byte_at(n, addr) == laws::byte_at(m1, addr));
    }
}

/// A request for the device's ID puts it into every data buffer, as far as the
/// buffer has room, ends with status 0 without asking the disk, and the work goes
/// on behind it.
pub proof fn law_id_fills_all_buffers(
    d: DiskView,
    m: MemView,
    run: BlockRunView,
    c: Seq<VirtqDesc>,
    sector: int,
)
    requires
        run.active is None,
        run.queue.last_avail_idx != run.avail,
        is_request(m, run.queue, c, 8, sector),
        all_for_device(data_of(c), true),
        id_size(data_of(c), d.device_id, 0) < u32::MAX,
    ensures
        exists|n: MemView| #[trigger]
            answered(m, n, run.queue, c, 0, id_size(data_of(c), d.device_id, 0) + 1) && (forall|
                i: int,
                j: int,
            |
                #![trigger laws::byte_at(n, data_of(c)[i].addr + j)]
                0 <= i < data_of(c).len() && 0 <= j < id_part(data_of(c)[i], d.device_id)
                    ==> laws::byte_at(n, data_of(c)[i].addr + j) == d.device_id[j]) && d.go_on(
                m,
                run,
            ) == d.go_on(n, behind(run)),
{
    let q = run.queue;
    let data = data_of(c);
    let id = d.device_id;
    let r = request(m, q, c, 8, sector);
    lemma_begins(d, m, run, c, 8, sector);
    lemma_head_fits(m, q, c, 8, sector);
    assert(buffers::separate(m, q, c) && queue::laid_out(m, q) && c.len() >= 2 && c.last().len
        >= 1) by {
        reveal(is_request);
    }
    buffers::lemma_separate_part(m, q, c, 1, c.len() - 1);
    lemma_ids(m, q, id, r);
    lemma_id_size(data, id, 0);
    let (a, e, st) = block::id_stored(m, id, r);
    assert(block::needs(d.read_only, id, m, r) == (a, e, block::Need::End(Some(0u8)))
        && block::needs(d.read_only, id, a, e) == (a, e, block::Need::End(Some(0u8)))) by {
        reveal(block::needs);
    }
    lemma_same_end(d, m, a, run, r, e);
    lemma_ends(d, m, a, run, c, 8, sector, e, 0);
    let n = ending(a, q, c, e, 0);
    assert(a.base == m.base && a.data.len() == m.data.len()) by {
        reveal(buffers::only_changed_from);
    }
    assert forall|i: int, j: int|
        #![trigger laws::byte_at(n, data[i].addr + j)]
        0 <= i < data.len() && 0 <= j < id_part(data[i], id) implies laws::byte_at(
        n,
        data[i].addr + j,
    ) == id[j] by {
        reveal(buffers::separate);
        assert(data[i] == c[i + 1]);
        assert(queue::held(m, c[i + 1]) && buffers::off_queue(q, c[i + 1]));
        assert(buffers::off(
            c[i + 1].addr as int,
            c[i + 1].len as int,
            c[c.len() - 1].addr as int,
            c[c.len() - 1].len as int,
        ));
        assert(laws::byte_at(n, data[i].addr + j) == laws::byte_at(a, data[i].addr + j));
    }
    assert(answered(m, n, q, c, 0, id_size(data, id, 0) + 1));
}

proof fn lemma_same_end(
    d: DiskView,
    m: MemView,
    a: MemView,
    run: BlockRunView,
    r: RequestView,
    e: RequestView,
)
    requires
        r.head == e.head,
        block::needs(d.read_only, d.device_id, m, r) == (a, e, block::Need::End(Some(0u8))),
        block::needs(d.read_only, d.device_id, a, e) == (a, e, block::Need::End(Some(0u8))),
    ensures
        d.go_on(m, BlockRunView { active: Some(r), ..run }) == d.go_on(
            a,
            BlockRunView { active: Some(e), ..run },
        ),
{
    let (a1, status, written) = block::ended(a, e, Some(0u8));
    let w = BlockRunView { active: Some(r), ..run };
    let v = BlockRunView { active: Some(e), ..run };
    assert(d.go_on(m, w) == d.after_request(a1, w, r.head, status, written));
    assert(d.go_on(a, v) == d.after_request(a1, v, r.head, status, written));
    assert(d.after_request(a1, w, r.head, status, written) == d.after_request(
        a1,
        v,
        r.head,
        status,
        written,
    ));
}

/// Work on a queue that the driver has laid out takes all chains that wait.
pub proof fn law_work_starts_with_all_waiting(d: DiskView, m: MemView, q: VirtQueue)
    requires
        queue::laid_out(m, q),
    ensures
        d.begun(m, q) == d.go_on(
            m,
            BlockRunView {
                queue: q,
                avail: laws::u16_at(m, q.avail_ring_addr + 2) as u16,
                processed: false,
                active: None,
            },
        ),
{
    queue::lemma_avail(m, q);
}

/// Work on a queue is done when no chain waits, and then the driver sees the used
/// ring filled as far as the device has filled it.
pub proof fn law_work_ends_shown(d: DiskView, m: MemView, run: BlockRunView)
    requires
        run.active is None,
        run.queue.last_avail_idx == run.avail,
        queue::laid_out(m, run.queue),
    ensures
        ({
            let s = d.go_on(m, run);
            &&& s.stop == StopView::Finished(Ok(run.processed))
            &&& s.run == run
            &&& queue::only_used_changed(m, s.mem, run.queue)
            &&& run.processed ==> queue::shown(s.mem, run.queue) == run.queue.last_used_idx
            &&& !run.processed ==> s.mem == m
        }),
{
    queue::lemma_moved(run.queue, 0);
    queue::lemma_put_idx(m, run.queue, 0);
}

/// Whether the next request has ended as failed, with nothing stored. Only the
/// buffer of its status and the used ring may have changed.
#[verifier::opaque]
pub open spec fn refused(m: MemView, n: MemView, q: VirtQueue, c: Seq<VirtqDesc>) -> bool {
    &&& laws::byte_at(n, c.last().addr as int) == 1
    &&& queue::is_used(n, q, 0, queue::head_at(m, q, 0), 0)
    &&& buffers::only_changed(m, n, q, seq![c.last()])
}

/// Whether the next chain is laid out with room for a status.
#[verifier::opaque]
pub open spec fn is_laid_out(m: MemView, q: VirtQueue, c: Seq<VirtqDesc>) -> bool {
    &&& queue::laid_out(m, q)
    &&& queue::is_chain(m, q, queue::head_at(m, q, 0), c)
    &&& buffers::separate(m, q, c)
    &&& c.last().len >= 1
}

/// Guest memory after the next request was refused.
spec fn refusing(m: MemView, q: VirtQueue, c: Seq<VirtqDesc>) -> MemView {
    q.put_used(m, queue::head_at(m, q, 0) as u16, 0).0.store(c.last().addr as int, seq![1u8])
}

proof fn lemma_refused(m: MemView, q: VirtQueue, c: Seq<VirtqDesc>)
    requires
        is_laid_out(m, q, c),
    ensures
        block::settled(m, q, queue::head_at(m, q, 0) as u16, 1, 0) == (
            refusing(m, q, c),
            q.advanced(),
            Ok::<(), QueueFault>(()),
        ),
        refused(m, refusing(m, q, c), q, c),
        q.avail_head(m) == Ok::<u16, MemoryError>(queue::head_at(m, q, 0) as u16),
        queue::head_at(m, q, 0) as u16 == queue::head_at(m, q, 0),
{
    reveal(is_laid_out);
    let head = queue::head_at(m, q, 0) as u16;
    let st = c.last().addr as int;
    queue::lemma_moved(q, 0);
    queue::lemma_head(m, q, 0);
    queue::lemma_put_used(m, q, 0, head, 0);
    let a = q.put_used(m, head, 0).0;
    queue::lemma_same_numbers(m, a, q);
    queue::lemma_chain_stays(m, a, q, head as int, c);
    queue::lemma_chain(a, q, head, c, 0);
    lemma_chain_positions(a, q, q.advanced(), head, 0);
    assert(a.in_bounds(st, 1) && buffers::off_queue(q, c.last())) by {
        reveal(buffers::separate);
        assert(queue::held(m, c[c.len() - 1]));
        assert(buffers::off_queue(q, c[c.len() - 1]));
    }
    let n = a.store(st, seq![1u8]);
    assert(n == refusing(m, q, c));
    lemma_refusal(m, a, n, q, c);
}

proof fn lemma_refusal(m: MemView, a: MemView, n: MemView, q: VirtQueue, c: Seq<VirtqDesc>)
    requires
        queue::laid_out(a, q),
        c.len() > 0,
        c.last().len >= 1,
        queue::only_used_changed(m, a, q),
        queue::is_used(a, q, 0, queue::head_at(m, q, 0), 0),
        a.in_bounds(c.last().addr as int, 1),
        buffers::off_queue(q, c.last()),
        n == a.store(c.last().addr as int, seq![1u8]),
    ensures
        refused(m, n, q, c),
{
    let st = c.last().addr as int;
    assert(laws::byte_at(n, st) == seq![1u8][0]);
    assert(queue::is_used(n, q, 0, queue::head_at(m, q, 0), 0)) by {
        reveal(queue::is_used);
        let at = queue::used_entry(q, 0);
        let i = queue::ring_index(q.last_used_idx, 0) % (q.size as int);
        assert(0 <= i < q.size);
        assert(laws::byte_at(n, at) == laws::byte_at(a, at) && laws::byte_at(n, at + 1)
            == laws::byte_at(a, at + 1) && laws::byte_at(n, at + 2) == laws::byte_at(a, at + 2)
            && laws::byte_at(n, at + 3) == laws::byte_at(a, at + 3));
        assert(laws::byte_at(n, at + 4) == laws::byte_at(a, at + 4) && laws::byte_at(n, at + 5)
            == laws::byte_at(a, at + 5) && laws::byte_at(n, at + 6) == laws::byte_at(a, at + 6)
            && laws::byte_at(n, at + 7) == laws::byte_at(a, at + 7));
    }
    let last = seq![c.last()];
    assert(buffers::only_changed(m, n, q, last)) by {
        assert forall|addr: int|
            m.base <= addr < m.end() && !buffers::in_some(last, addr) && !queue::in_used(
                q,
                addr,
            ) implies #[trigger] laws::byte_at(n, addr) == laws::byte_at(m, addr) by {
            assert(!buffers::inside(last[0], addr));
            assert(laws::byte_at(a, addr) == laws::byte_at(m, addr));
        }
    }
    assert(refused(m, n, q, c)) by {
        reveal(refused);
    }
}

proof fn lemma_after(d: DiskView, m: MemView, n: MemView, run: BlockRunView, head: u16)
    requires
        run.queue.last_avail_idx != run.avail,
        block::settled(m, run.queue, head, 1, 0) == (
            n,
            run.queue.advanced(),
            Ok::<(), QueueFault>(()),
        ),
    ensures
        d.after_request(m, run, head, 1, 0) == d.go_on(n, behind(run)),
{
    assert(run.queue.advanced() == queue::moved(run.queue, 1));
}

/// A request whose disk operation fails ends as failed, and the work goes on behind
/// it.
pub proof fn law_disk_failure_is_reported(
    d: DiskView,
    m: MemView,
    run: BlockRunView,
    c: Seq<VirtqDesc>,
)
    requires
        run.queue.last_avail_idx != run.avail,
        run.active is Some,
        run.active->0.head == queue::head_at(m, run.queue, 0),
        is_laid_out(m, run.queue, c),
    ensures
        exists|n: MemView| #[trigger]
            refused(m, n, run.queue, c) && d.resumed(m, run, DiskReplyView::Failed) == d.go_on(
                n,
                behind(run),
            ),
{
    lemma_refused(m, run.queue, c);
    let n = refusing(m, run.queue, c);
    block::law_failed_operation_ends_request(d, m, run);
    lemma_after(d, m, n, run, run.active->0.head);
    assert(refused(m, n, run.queue, c));
}

/// A request without a header of 16 bytes for the device to read in a buffer of its
/// own, or without a status buffer for the device to write, ends as failed, and the
/// work goes on behind it.
pub proof fn law_malformed_request_is_reported(
    d: DiskView,
    m: MemView,
    run: BlockRunView,
    c: Seq<VirtqDesc>,
)
    requires
        run.active is None,
        run.queue.last_avail_idx != run.avail,
        is_laid_out(m, run.queue, c),
        c.len() == 1 || queue::for_device(c[0]) || c[0].len < 16 || !queue::for_device(c.last()),
    ensures
        exists|n: MemView| #[trigger]
            refused(m, n, run.queue, c) && d.go_on(m, run) == d.go_on(n, behind(run)),
{
    let q = run.queue;
    let head = queue::head_at(m, q, 0) as u16;
    lemma_refused(m, q, c);
    let n = refusing(m, q, c);
    lemma_malformed(m, q, c);
    block::law_malformed_request_is_answered(d, m, run, head);
    lemma_after(d, m, n, run, head);
    assert(refused(m, n, q, c));
}

proof fn lemma_malformed(m: MemView, q: VirtQueue, c: Seq<VirtqDesc>)
    requires
        is_laid_out(m, q, c),
        c.len() == 1 || queue::for_device(c[0]) || c[0].len < 16 || !queue::for_device(c.last()),
    ensures
        block::parsed(m, q, queue::head_at(m, q, 0) as u16) is Err,
{
    reveal(is_laid_out);
    reveal(block::parsed);
    let head = queue::head_at(m, q, 0) as u16;
    queue::lemma_desc(m, q, head);
    queue::lemma_flags(c[0]);
    queue::lemma_flags(c.last());
    if c.len() > 1 {
        let rest = c.skip(1);
        queue::lemma_chain_tail(m, q, head, c);
        queue::lemma_chain(m, q, c[0].next, rest, 0);
        assert(rest.last() == c.last());
    } else {
        assert(c.last() == c[0]);
    }
}

/// A data buffer that the device may not write fails a read, and one that it may
/// write fails a write. So does a sector whose place needs more than 64 bits.
pub proof fn law_unfit_requests_fail(d: DiskView, m: MemView, r: RequestView)
    requires
        r.kind == 0 || (r.kind == 1 && !d.read_only),
    ensures
        r.started && r.next < r.data.len() && queue::for_device(r.data[r.next as int]) == (r.kind
            == 1) ==> block::needs(d.read_only, d.device_id, m, r) == (
            m,
            r,
            block::Need::End(Some(1)),
        ),
        !r.started && r.sector * 512 > u64::MAX ==> block::needs(
            d.read_only,
            d.device_id,
            m,
            r,
        ) == (m, r, block::Need::End(None)),
        block::ended(m, r, None) == (m, 1u8, 0u32),
{
    reveal(block::needs);
    reveal(block::ended);
    queue::lemma_flags(r.data[r.next as int]);
}

/// A disk that gives fewer or more bytes than a buffer holds has failed.
pub proof fn law_short_reads_fail(m: MemView, r: RequestView, b: Seq<u8>)
    requires
        r.kind == 0,
        r.started,
        r.next < r.data.len(),
        b.len() != r.data[r.next as int].len,
    ensures
        block::replied(m, r, DiskReplyView::Data(b)) == (m, None::<RequestView>),
{
    reveal(block::replied);
}

/// A queue that the driver has not set up is left alone.
pub proof fn law_unready_queue_untouched(d: DiskView, m: MemView, q: VirtQueue)
    requires
        !q.ready || q.size == 0,
    ensures
        d.begun(m, q).mem == m,
        d.begun(m, q).stop == StopView::Finished(Ok(false)),
        d.begun(m, q).run.queue == q,
{
}

} // verus!
