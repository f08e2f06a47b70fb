//! How the entropy device fills the guest's buffers.

use crate::devices::rng::{self, ChainWalk, RngRun, StopView, Stopped};
use crate::laws;
use crate::laws::{buffers, queue};
use crate::memory::{MemView, MemoryError};
use crate::transport::{QueueFault, VirtQueue, VirtqDesc};
use vstd::prelude::*;

verus! {

/// Lets a source of random bytes, from byte `pos` on, serve the next `n` demands of
/// the work on a queue.
pub open spec fn served(s: Stopped, source: Seq<u8>, pos: int, n: nat) -> (Stopped, int)
    decreases n,
{
    match s.stop {
        StopView::Entropy(len) => if n == 0 {
            (s, pos)
        } else {
            served(
                rng::supplied(s.mem, s.run, source.subrange(pos, pos + len)),
                source,
                pos + len,
                (n - 1) as nat,
            )
        },
        StopView::Finished(_) => (s, pos),
    }
}

/// The work that goes on behind the next chain.
pub open spec fn behind(run: RngRun) -> RngRun {
    RngRun { queue: queue::moved(run.queue, 1), processed: true, walk: None, ..run }
}

/// Whether the buffers of the next chain were filled with these bytes, one behind
/// the other, and the driver is told how many they are. Only they and the used ring
/// may have changed.
#[verifier::opaque]
pub open spec fn is_filled(
    m: MemView,
    n: MemView,
    q: VirtQueue,
    c: Seq<VirtqDesc>,
    random: Seq<u8>,
) -> bool {
    &&& buffers::hold(n, c, random)
    &&& queue::is_used(n, q, 0, queue::head_at(m, q, 0), buffers::before(c, c.len() as int))
    &&& buffers::only_changed(m, n, q, c)
}

/// The work that stands at the `k`-th buffer of a chain.
spec fn standing(run: RngRun, head: u16, c: Seq<VirtqDesc>, k: int) -> RngRun {
    RngRun {
        walk: Some(rng::walk_at(head, c[k], (k + 1) as u32, buffers::before(c, k) as u32)),
        ..run
    }
}

proof fn lemma_first(m: MemView, run: RngRun, c: Seq<VirtqDesc>)
    requires
        run.walk is None,
        run.queue.last_avail_idx != run.avail,
        queue::laid_out(m, run.queue),
        queue::is_chain(m, run.queue, queue::head_at(m, run.queue, 0), c),
    ensures
        rng::go_on(m, run) == rng::go_on(
            m,
            standing(run, queue::head_at(m, run.queue, 0) as u16, c, 0),
        ),
{
    let q = run.queue;
    let head = queue::head_at(m, q, 0) as u16;
    queue::lemma_moved(q, 0);
    queue::lemma_head(m, q, 0);
    queue::lemma_desc(m, q, head);
    assert(buffers::before(c, 0) == 0);
}

proof fn lemma_demand(m: MemView, run: RngRun, w: ChainWalk)
    requires
        run.walk == Some(w),
        !w.filled,
    ensures
        rng::go_on(m, run) == (Stopped { mem: m, run, stop: StopView::Entropy(rng::fill_len(w.at)) }),
{
}

proof fn lemma_next(m: MemView, run: RngRun, w: ChainWalk, d: VirtqDesc)
    requires
        run.walk == Some(w),
        w.filled,
        w.at.spec_has_next(),
        w.visited < run.queue.size,
        run.queue.desc(m, w.at.next) == Ok::<VirtqDesc, QueueFault>(d),
    ensures
        rng::go_on(m, run) == rng::go_on(
            m,
            RngRun {
                walk: Some(rng::walk_at(w.head, d, (w.visited + 1) as u32, w.written)),
                ..run
            },
        ),
{
}

proof fn lemma_last(m: MemView, run: RngRun, w: ChainWalk)
    requires
        run.walk == Some(w),
        w.filled,
        !w.at.spec_has_next(),
        run.queue.last_avail_idx != run.avail,
        run.queue.put_used(m, w.head, w.written).1 is Ok,
    ensures
        rng::go_on(m, run) == rng::go_on(
            run.queue.put_used(m, w.head, w.written).0,
            behind(run),
        ),
{
    assert(run.queue.advanced() == queue::moved(run.queue, 1));
}

/// The memory after the buffers from the `k`-th on were filled.
spec fn stored(m: MemView, c: Seq<VirtqDesc>, b: Seq<u8>, k: int) -> MemView
    decreases c.len() - k,
{
    if k >= c.len() || k < 0 {
        m
    } else {
        stored(
            m.store(
                c[k].addr as int,
                b.subrange(buffers::before(c, k), buffers::before(c, k) + c[k].len),
            ),
            c,
            b,
            k + 1,
        )
    }
}

/// The work with the `k`-th buffer of a chain filled.
spec fn done(run: RngRun, head: u16, c: Seq<VirtqDesc>, k: int) -> RngRun {
    RngRun {
        walk: Some(
            ChainWalk {
                head,
                at: c[k],
                visited: (k + 1) as u32,
                filled: true,
                written: buffers::before(c, k + 1) as u32,
            },
        ),
        ..run
    }
}

proof fn lemma_serves(
    m: MemView,
    run: RngRun,
    head: u16,
    c: Seq<VirtqDesc>,
    source: Seq<u8>,
    pos: int,
    k: int,
    n: nat,
    m1: MemView,
)
    requires
        0 <= k < c.len(),
        queue::for_device(c[k]),
        c[k].len <= 0x1_0000,
        0 <= buffers::before(c, k),
        buffers::before(c, k) + c[k].len <= u32::MAX,
        0 <= pos,
        pos + c[k].len <= source.len(),
        m.write(c[k].addr, source.subrange(pos, pos + c[k].len)) == (
            m1,
            Ok::<(), MemoryError>(()),
        ),
        n > 0,
    ensures
        served(rng::go_on(m, standing(run, head, c, k)), source, pos, n) == served(
            rng::go_on(m1, done(run, head, c, k)),
            source,
            pos + c[k].len,
            (n - 1) as nat,
        ),
{
    let r = standing(run, head, c, k);
    queue::lemma_flags(c[k]);
    lemma_demand(m, r, r.walk->0);
    let s = rng::go_on(m, r);
    let part = source.subrange(pos, pos + c[k].len);
    lemma_supplied(m, r, r.walk->0, part, m1);
    assert(buffers::before(c, k + 1) == buffers::before(c, k) + c[k].len);
    assert(RngRun {
        walk: Some(
            ChainWalk {
                filled: true,
                written: crate::transport::sat_add(r.walk->0.written, part.len() as int),
                ..r.walk->0
            },
        ),
        ..r
    } == done(run, head, c, k));
}

proof fn lemma_supplied(m: MemView, run: RngRun, w: ChainWalk, part: Seq<u8>, m1: MemView)
    requires
        run.walk == Some(w),
        m.write(w.at.addr, part) == (m1, Ok::<(), MemoryError>(())),
    ensures
        rng::supplied(m, run, part) == rng::go_on(
            m1,
            RngRun {
                walk: Some(
                    ChainWalk {
                        filled: true,
                        written: crate::transport::sat_add(w.written, part.len() as int),
                        ..w
                    },
                ),
                ..run
            },
        ),
{
}

proof fn lemma_stored(m: MemView, q: VirtQueue, c: Seq<VirtqDesc>, b: Seq<u8>, k: int)
    requires
        queue::laid_out(m, q),
        buffers::separate(m, q, c),
        b.len() == buffers::before(c, c.len() as int),
        0 <= k <= c.len(),
    ensures
        buffers::hold_from(stored(m, c, b, k), c, b, k),
        buffers::only_changed_from(m, stored(m, c, b, k), c, k),
        queue::laid_out(stored(m, c, b, k), q),
    decreases c.len() - k,
{
    let a = stored(m, c, b, k);
    if k == c.len() {
        buffers::lemma_rest_empty(m, c, b, k);
    } else {
        let at = buffers::before(c, k);
        buffers::lemma_before(c, 0, k);
        buffers::lemma_before(c, k + 1, c.len() as int);
        let part = b.subrange(at, at + c[k].len);
        let m1 = m.store(c[k].addr as int, part);
        buffers::lemma_store(m, q, c, k, part);
        lemma_stored(m1, q, c, b, k + 1);
        buffers::lemma_hold_step(m, m1, a, q, c, b, k, c[k].len as int);
    }
}

proof fn lemma_advance(m: MemView, run: RngRun, head: u16, c: Seq<VirtqDesc>, k: int)
    requires
        queue::laid_out(m, run.queue),
        queue::is_chain(m, run.queue, head as int, c),
        0 <= k,
        k + 1 < c.len(),
    ensures
        rng::go_on(m, done(run, head, c, k)) == rng::go_on(m, standing(run, head, c, k + 1)),
{
    let r1 = done(run, head, c, k);
    assert(queue::goes_on(c[k]) && c[k].next < run.queue.size && c[k + 1] == queue::desc_at(
        m,
        run.queue,
        c[k].next as int,
    ));
    queue::lemma_flags(c[k]);
    queue::lemma_desc(m, run.queue, c[k].next);
    lemma_next(m, r1, r1.walk->0, c[k + 1]);
}

/// The work behind a chain whose buffers from the `k`-th on are filled.
spec fn ending(m: MemView, run: RngRun, head: u16, c: Seq<VirtqDesc>, b: Seq<u8>, k: int) -> Stopped {
    rng::go_on(
        run.queue.put_used(
            stored(m, c, b, k),
            head,
            buffers::before(c, c.len() as int) as u32,
        ).0,
        behind(run),
    )
}

/// Whether a chain's buffers are for the device to fill.
#[verifier::opaque]
spec fn ready(m: MemView, q: VirtQueue, head: u16, c: Seq<VirtqDesc>) -> bool {
    &&& queue::laid_out(m, q)
    &&& queue::is_chain(m, q, head as int, c)
    &&& buffers::separate(m, q, c)
    &&& forall|i: int|
        0 <= i < c.len() ==> queue::for_device(#[trigger] c[i]) && c[i].len <= 0x1_0000
}

proof fn lemma_ready(m: MemView, q: VirtQueue, head: u16, c: Seq<VirtqDesc>, k: int, part: Seq<u8>)
    requires
        ready(m, q, head, c),
        0 <= k < c.len(),
        part.len() == c[k].len,
    ensures
        ({
            let m1 = m.store(c[k].addr as int, part);
            &&& ready(m1, q, head, c)
            &&& m.write(c[k].addr, part) == (m1, Ok::<(), MemoryError>(()))
            &&& queue::for_device(c[k])
            &&& c[k].len <= 0x1_0000
        }),
{
    reveal(ready);
    buffers::lemma_store(m, q, c, k, part);
    queue::lemma_chain_stays(m, m.store(c[k].addr as int, part), q, head as int, c);
    assert(queue::for_device(c[k]));
}

proof fn lemma_step(m: MemView, run: RngRun, head: u16, c: Seq<VirtqDesc>, k: int)
    requires
        ready(m, run.queue, head, c),
        run.queue.last_avail_idx != run.avail,
        0 <= k < c.len(),
        0 <= buffers::before(c, c.len() as int) <= u32::MAX,
    ensures
        k + 1 < c.len() ==> rng::go_on(m, done(run, head, c, k)) == rng::go_on(
            m,
            standing(run, head, c, k + 1),
        ),
        k + 1 == c.len() ==> rng::go_on(m, done(run, head, c, k)) == rng::go_on(
            run.queue.put_used(m, head, buffers::before(c, c.len() as int) as u32).0,
            behind(run),
        ),
{
    reveal(ready);
    let q = run.queue;
    if k + 1 < c.len() {
        lemma_advance(m, run, head, c, k);
    } else {
        let total = buffers::before(c, c.len() as int);
        let r1 = done(run, head, c, k);
        assert(c.last() == c[k]);
        queue::lemma_flags(c[k]);
        queue::lemma_moved(q, 0);
        queue::lemma_put_used(m, q, 0, head, total as u32);
        lemma_last(m, r1, r1.walk->0);
        assert(behind(r1) == behind(run));
    }
}

proof fn lemma_fills(
    m: MemView,
    run: RngRun,
    head: u16,
    c: Seq<VirtqDesc>,
    source: Seq<u8>,
    pos: int,
    k: int,
)
    requires
        run.queue.last_avail_idx != run.avail,
        ready(m, run.queue, head, c),
        0 <= pos,
        pos + buffers::before(c, c.len() as int) <= source.len(),
        buffers::before(c, c.len() as int) <= u32::MAX,
        0 <= k < c.len(),
    ensures
        served(
            rng::go_on(m, standing(run, head, c, k)),
            source,
            pos + buffers::before(c, k),
            (c.len() - k) as nat,
        ) == served(
            ending(
                m,
                run,
                head,
                c,
                source.subrange(pos, pos + buffers::before(c, c.len() as int)),
                k,
            ),
            source,
            pos + buffers::before(c, c.len() as int),
            0,
        ),
    decreases c.len() - k,
{
    let q = run.queue;
    let total = buffers::before(c, c.len() as int);
    let b = source.subrange(pos, pos + total);
    let at = buffers::before(c, k);
    let len = c[k].len as int;
    buffers::lemma_before(c, 0, k);
    buffers::lemma_before(c, k + 1, c.len() as int);
    assert(buffers::before(c, k + 1) == at + len);
    let part = b.subrange(at, at + len);
    assert(source.subrange(pos + at, pos + at + len) =~= part);
    lemma_ready(m, q, head, c, k, part);
    let m1 = m.store(c[k].addr as int, part);
    let left = (c.len() - k) as nat;
    lemma_serves(m, run, head, c, source, pos + at, k, left, m1);
    lemma_step(m1, run, head, c, k);
    assert(stored(m, c, b, k) == stored(m1, c, b, k + 1));
    if k + 1 < c.len() {
        lemma_fills(m1, run, head, c, source, pos, k + 1);
    } else {
        assert(stored(m1, c, b, k + 1) == m1);
    }
}

/// All buffers of the next chain are filled, each with as many random bytes as it
/// is long, in the order in which the source gives them, if they are for the device
/// to write and none is longer than 64 KiB. The work goes on behind the chain.
pub proof fn law_all_buffers_are_filled(
    m: MemView,
    run: RngRun,
    c: Seq<VirtqDesc>,
    source: Seq<u8>,
    pos: int,
)
    requires
        run.walk is None,
        run.queue.last_avail_idx != run.avail,
        queue::laid_out(m, run.queue),
        queue::is_chain(m, run.queue, queue::head_at(m, run.queue, 0), c),
        buffers::separate(m, run.queue, c),
        forall|i: int|
            0 <= i < c.len() ==> queue::for_device(#[trigger] c[i]) && c[i].len <= 0x1_0000,
        0 <= pos,
        pos + buffers::before(c, c.len() as int) <= source.len(),
        buffers::before(c, c.len() as int) <= u32::MAX,
    ensures
        exists|n: MemView| #[trigger]
            is_filled(
                m,
                n,
                run.queue,
                c,
                source.subrange(pos, pos + buffers::before(c, c.len() as int)),
            ) && served(rng::go_on(m, run), source, pos, c.len()) == served(
                rng::go_on(n, behind(run)),
                source,
                pos + buffers::before(c, c.len() as int),
                0,
            ),
{
    let q = run.queue;
    let head = queue::head_at(m, q, 0) as u16;
    let total = buffers::before(c, c.len() as int);
    let b = source.subrange(pos, pos + total);
    buffers::lemma_before(c, 0, c.len() as int);
    assert(buffers::before(c, 0) == 0);
    lemma_first(m, run, c);
    assert(ready(m, q, head, c)) by {
        reveal(ready);
    }
    lemma_fills(m, run, head, c, source, pos, 0);
    lemma_stored(m, q, c, b, 0);
    let a = stored(m, c, b, 0);
    let n = q.put_used(a, head, total as u32).0;
    queue::lemma_moved(q, 0);
    queue::lemma_put_used(a, q, 0, head, total as u32);
    buffers::lemma_used_spares(m, a, n, q, c, b);
    assert(is_filled(m, n, q, c, b)) by {
        reveal(is_filled);
    }
}

/// Work on a queue takes everything that waits.
pub proof fn law_work_starts_with_all_waiting(m: MemView, q: VirtQueue)
    requires
        queue::laid_out(m, q),
    ensures
        rng::begun(m, q) == rng::go_on(
            m,
            RngRun {
                queue: q,
                avail: laws::u16_at(m, q.avail_ring_addr + 2) as u16,
                processed: false,
                walk: None,
            },
        ),
{
    queue::lemma_avail(m, q);
}

/// Work on a queue ends by showing the driver how many chains were given back.
pub proof fn law_work_ends_shown(m: MemView, run: RngRun)
    requires
        run.walk is None,
        run.queue.last_avail_idx == run.avail,
        queue::laid_out(m, run.queue),
    ensures
        ({
            let s = rng::go_on(m, run);
            &&& s.stop == StopView::Finished(Ok(run.processed))
            &&& s.run == run
            &&& queue::only_used_changed(m, s.mem, run.queue)
            &&& run.processed ==> queue::shown(s.mem, run.queue) == run.queue.last_used_idx
            &&& !run.processed ==> s.mem == m
        }),
{
    queue::lemma_moved(run.queue, 0);
    queue::lemma_put_idx(m, run.queue, 0);
}

/// A queue that the driver has not set up is left alone.
pub proof fn law_unready_queue_untouched(m: MemView, q: VirtQueue)
    requires
        !q.ready || q.size == 0,
    ensures
        rng::begun(m, q).mem == m,
        rng::begun(m, q).stop == StopView::Finished(Ok(false)),
        rng::begun(m, q).run.queue == q,
{
}

/// At most 64 KiB are asked for at once, however long a buffer is.
pub proof fn law_demands_are_bounded(d: VirtqDesc)
    ensures
        rng::fill_len(d) == if d.len < 0x1_0000 {
            d.len as int
        } else {
            0x1_0000
        },
{
}

} // verus!
