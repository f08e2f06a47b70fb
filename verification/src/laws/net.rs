//! What the network device hands to its backend and to the guest.

use crate::devices::net::{self, NetView};
use crate::laws;
use crate::laws::{buffers, queue};
use crate::memory::{MemView, MemoryError};
use crate::transport::{self, QueueFault, VirtQueue, VirtqDesc};
use vstd::prelude::*;

verus! {

/// Whether the chain that starts at `head` carries this frame: all its buffers lie
/// in guest memory, and the frame is what they hold behind a header of 12 bytes.
pub open spec fn carries(m: MemView, q: VirtQueue, head: int, frame: Seq<u8>) -> bool {
    exists|c: Seq<VirtqDesc>| #[trigger] carried_by(m, q, head, frame, c)
}

/// Whether the frame is in the chain of these descriptors.
pub open spec fn carried_by(
    m: MemView,
    q: VirtQueue,
    head: int,
    frame: Seq<u8>,
    c: Seq<VirtqDesc>,
) -> bool {
    &&& queue::is_chain(m, q, head, c)
    &&& forall|i: int| 0 <= i < c.len() ==> queue::held(m, #[trigger] c[i])
    &&& queue::gathered(m, c).len() > 12
    &&& frame == queue::gathered(m, c).skip(12)
}

/// The values that are there, in order.
pub open spec fn somes(s: Seq<Option<Seq<u8>>>) -> Seq<Seq<u8>>
    decreases s.len(),
{
    if s.len() == 0 {
        Seq::empty()
    } else {
        match s.last() {
            Some(v) => somes(s.drop_last()).push(v),
            None => somes(s.drop_last()),
        }
    }
}

/// Whether these are the frames of the waiting chains, in order: of each chain the
/// one that it carries, or nothing if it carries none.
pub open spec fn frames_waiting(m: MemView, q: VirtQueue, frames: Seq<Option<Seq<u8>>>) -> bool {
    &&& frames.len() == queue::waiting(m, q)
    &&& forall|k: int|
        0 <= k < frames.len() ==> match #[trigger] frames[k] {
            Some(f) => carries(m, q, queue::head_at(m, q, k), f),
            None => forall|f: Seq<u8>| !carries(m, q, queue::head_at(m, q, k), f),
        }
}

proof fn lemma_chain_bytes(m: MemView, q: VirtQueue, idx: u16, visited: nat)
    requires
        queue::laid_out(m, q),
        idx < q.size,
        1 <= visited <= q.size,
    ensures
        match net::chain_bytes(m, q, queue::desc_at(m, q, idx as int), visited) {
            Some(b) => is_there(m, q, idx, visited, b),
            None => true,
        },
        forall|c: Seq<VirtqDesc>, b: Seq<u8>|
            #[trigger] follows(m, q, idx, c, b) && visited + c.len() <= q.size + 1
                ==> net::chain_bytes(m, q, queue::desc_at(m, q, idx as int), visited) == Some(b),
    decreases q.size - visited,
{
    let d = queue::desc_at(m, q, idx as int);
    queue::lemma_flags(d);
    queue::lemma_desc(m, q, d.next);
    let own = m.slice(d.addr as int, d.len as int);
    if queue::held(m, d) {
        queue::lemma_slice(m, d.addr as int, d.len as int);
    }
    if queue::held(m, d) && !queue::goes_on(d) {
        let c = seq![d];
        assert(c.skip(1) =~= Seq::<VirtqDesc>::empty());
        assert(queue::gathered(m, c.skip(1)) =~= Seq::<u8>::empty());
        assert(queue::gathered(m, c) =~= own);
        assert(follows(m, q, idx, c, own));
        assert(net::chain_bytes(m, q, d, visited) == Some(own));
        assert(is_there(m, q, idx, visited, own));
        assert forall|e: Seq<VirtqDesc>, b: Seq<u8>| #[trigger] follows(m, q, idx, e, b) implies b
            == own by {
            assert(e[0] == d);
            if e.len() > 1 {
                assert(queue::goes_on(e[0]));
            }
            assert(e =~= c);
        }
    } else if queue::held(m, d) && visited < q.size && d.next < q.size {
        lemma_chain_bytes(m, q, d.next, visited + 1);
        let rest = net::chain_bytes(m, q, queue::desc_at(m, q, d.next as int), visited + 1);
        if rest is Some {
            let b = rest->0;
            let c = choose|c: Seq<VirtqDesc>| #[trigger]
                follows(m, q, d.next, c, b) && visited + 1 + c.len() <= q.size + 1;
            let e = seq![d] + c;
            assert(e.skip(1) =~= c);
            assert(queue::gathered(m, e) =~= own + b);
            assert forall|i: int| 0 <= i < e.len() - 1 implies queue::goes_on(#[trigger] e[i])
                && e[i].next < q.size && e[i + 1] == queue::desc_at(m, q, e[i].next as int) by {
                if i > 0 {
                    assert(e[i] == c[i - 1] && e[i + 1] == c[i]);
                }
            }
            assert(e.last() == c.last());
            assert forall|i: int| 0 <= i < e.len() implies queue::held(m, #[trigger] e[i]) by {
                if i > 0 {
                    assert(e[i] == c[i - 1]);
                }
            }
            assert(follows(m, q, idx, e, own + b));
            assert(net::chain_bytes(m, q, d, visited) == Some(own + b));
            assert(is_there(m, q, idx, visited, own + b));
            assert(visited + e.len() <= q.size + 1);
        } else {
            assert(net::chain_bytes(m, q, d, visited) is None);
        }
        assert forall|e: Seq<VirtqDesc>, b: Seq<u8>| #[trigger]
            follows(m, q, idx, e, b) && visited + e.len() <= q.size + 1 implies net::chain_bytes(
            m,
            q,
            d,
            visited,
        ) == Some(b) by {
            assert(e[0] == d);
            assert(e.len() > 1);
            let c = e.skip(1);
            assert(e[1] == queue::desc_at(m, q, e[0].next as int));
            assert forall|i: int| 0 <= i < c.len() - 1 implies queue::goes_on(#[trigger] c[i])
                && c[i].next < q.size && c[i + 1] == queue::desc_at(m, q, c[i].next as int) by {
                assert(c[i] == e[i + 1] && c[i + 1] == e[i + 2]);
            }
            assert(c.last() == e.last());
            assert forall|i: int| 0 <= i < c.len() implies queue::held(m, #[trigger] c[i]) by {
                assert(c[i] == e[i + 1]);
            }
            let rest_bytes = queue::gathered(m, c);
            assert(follows(m, q, d.next, c, rest_bytes));
            assert(b =~= own + rest_bytes);
        }
    } else {
        assert(net::chain_bytes(m, q, d, visited) is None);
        assert forall|e: Seq<VirtqDesc>, b: Seq<u8>| #[trigger]
            follows(m, q, idx, e, b) && visited + e.len() <= q.size + 1 implies net::chain_bytes(
            m,
            q,
            d,
            visited,
        ) == Some(b) by {
            assert(e[0] == d);
            assert(queue::held(m, e[0]));
            if e.len() > 1 {
                assert(e[0].next < q.size);
            }
        }
    }
}

/// Whether these descriptors are the chain from `idx` on, and their buffers hold
/// these bytes.
spec fn follows(m: MemView, q: VirtQueue, idx: u16, c: Seq<VirtqDesc>, b: Seq<u8>) -> bool {
    &&& queue::is_chain(m, q, idx as int, c)
    &&& forall|i: int| 0 <= i < c.len() ==> queue::held(m, #[trigger] c[i])
    &&& b == queue::gathered(m, c)
}

/// Whether there is a chain from `idx` on, short enough, that holds these bytes.
spec fn is_there(m: MemView, q: VirtQueue, idx: u16, visited: nat, b: Seq<u8>) -> bool {
    exists|c: Seq<VirtqDesc>|
        #[trigger] follows(m, q, idx, c, b) && visited + c.len() <= q.size + 1
}

proof fn lemma_tx_frame(m: MemView, q: VirtQueue, head: u16)
    requires
        queue::laid_out(m, q),
    ensures
        match net::tx_frame(m, q, head) {
            Some(f) => carries(m, q, head as int, f),
            None => forall|f: Seq<u8>| !carries(m, q, head as int, f),
        },
        forall|f: Seq<u8>| carries(m, q, head as int, f) ==> net::tx_frame(m, q, head) == Some(f),
{
    queue::lemma_desc(m, q, head);
    if head < q.size {
        lemma_chain_bytes(m, q, head, 1);
        let d = queue::desc_at(m, q, head as int);
        match net::chain_bytes(m, q, d, 1) {
            Some(b) => {
                let c = choose|c: Seq<VirtqDesc>| #[trigger]
                    follows(m, q, head, c, b) && 1 + c.len() <= q.size + 1;
                if b.len() > 12 {
                    assert(carried_by(m, q, head as int, b.skip(12), c));
                }
            },
            None => {},
        }
        assert forall|f: Seq<u8>| carries(m, q, head as int, f) implies net::tx_frame(m, q, head)
            == Some(f) by {
            let c = choose|c: Seq<VirtqDesc>| #[trigger] carried_by(m, q, head as int, f, c);
            assert(follows(m, q, head, c, queue::gathered(m, c)));
        }
        assert forall|f: Seq<u8>| net::tx_frame(m, q, head) is None implies !carries(
            m,
            q,
            head as int,
            f,
        ) by {}
    } else {
        assert forall|f: Seq<u8>| !carries(m, q, head as int, f) by {
            if carries(m, q, head as int, f) {
                let c = choose|c: Seq<VirtqDesc>| #[trigger] carried_by(m, q, head as int, f, c);
                assert(queue::is_chain(m, q, head as int, c));
            }
        }
    }
}

proof fn lemma_same_frame(m: MemView, n: MemView, q: VirtQueue, p: VirtQueue, head: u16)
    requires
        queue::laid_out(m, q),
        queue::buffers_apart(m, q),
        queue::only_used_changed(m, n, q),
        p.size == q.size,
        p.desc_table_addr == q.desc_table_addr,
    ensures
        net::tx_frame(n, p, head) == net::tx_frame(m, q, head),
{
    queue::lemma_same_numbers(m, n, q);
    queue::lemma_desc(m, q, head);
    queue::lemma_desc(n, q, head);
    assert(p.desc(n, head) == q.desc(n, head));
    if head < q.size {
        lemma_same_bytes(m, n, q, p, head, 1);
    }
}

proof fn lemma_same_bytes(
    m: MemView,
    n: MemView,
    q: VirtQueue,
    p: VirtQueue,
    idx: u16,
    visited: nat,
)
    requires
        queue::laid_out(m, q),
        queue::buffers_apart(m, q),
        queue::only_used_changed(m, n, q),
        p.size == q.size,
        p.desc_table_addr == q.desc_table_addr,
        idx < q.size,
    ensures
        net::chain_bytes(n, p, queue::desc_at(m, q, idx as int), visited) == net::chain_bytes(
            m,
            q,
            queue::desc_at(m, q, idx as int),
            visited,
        ),
    decreases q.size - visited,
{
    queue::lemma_same_numbers(m, n, q);
    let d = queue::desc_at(m, q, idx as int);
    queue::lemma_desc(m, q, d.next);
    queue::lemma_desc(n, q, d.next);
    assert(p.desc(n, d.next) == q.desc(n, d.next));
    if queue::held(m, d) {
        assert(n.slice(d.addr as int, d.len as int) == m.slice(d.addr as int, d.len as int));
    }
    if d.next < q.size && visited < q.size {
        lemma_same_bytes(m, n, q, p, d.next, visited + 1);
    }
}

proof fn lemma_somes_push(s: Seq<Option<Seq<u8>>>, v: Option<Seq<u8>>)
    ensures
        somes(s.push(v)) == match v {
            Some(f) => somes(s).push(f),
            None => somes(s),
        },
{
    assert(s.push(v).drop_last() =~= s);
}

/// One chain is taken from the transmit queue.
proof fn lemma_tx_step(
    m: MemView,
    q: VirtQueue,
    a: MemView,
    frames: Seq<Option<Seq<u8>>>,
    k: int,
)
    requires
        queue::laid_out(m, q),
        queue::buffers_apart(m, q),
        queue::only_used_changed(m, a, q),
        frames_waiting(m, q, frames),
        0 <= k < frames.len(),
        queue::one_turn(m, q) ==> queue::given_back(m, a, q, nothing(k as nat)),
    ensures
        ({
            let p = queue::moved(q, k);
            let head = queue::head_at(m, q, k) as u16;
            let (b, r) = p.put_used(a, head, 0);
            &&& p.last_avail_idx != laws::u16_at(m, q.avail_ring_addr + 2) as u16
            &&& p.avail_head(a) == Ok::<u16, MemoryError>(head)
            &&& net::tx_frame(a, p, head) == frames[k]
            &&& r is Ok
            &&& queue::only_used_changed(m, b, q)
            &&& p.advanced() == queue::moved(q, k + 1)
            &&& queue::one_turn(m, q) ==> queue::given_back(m, b, q, nothing((k + 1) as nat))
        }),
{
    let p = queue::moved(q, k);
    let head = queue::head_at(m, q, k) as u16;
    queue::lemma_avail(m, q);
    queue::lemma_same_numbers(m, a, q);
    queue::lemma_moved(q, k);
    queue::lemma_head(a, q, k);
    lemma_same_frame(m, a, q, p, head);
    lemma_tx_frame(m, q, head);
    queue::lemma_put_used(a, q, k, head, 0);
    if queue::one_turn(m, q) {
        queue::lemma_given_back(m, a, q, nothing(k as nat), head, 0);
        assert(nothing(k as nat).push(0) =~= nothing((k + 1) as nat));
    }
}

/// That no byte was written into each of `n` chains.
pub open spec fn nothing(n: nat) -> Seq<int> {
    Seq::new(n, |i: int| 0int)
}

proof fn lemma_tx_run(
    m: MemView,
    q: VirtQueue,
    a: MemView,
    sent: Seq<Seq<u8>>,
    frames: Seq<Option<Seq<u8>>>,
    k: int,
)
    requires
        queue::laid_out(m, q),
        queue::buffers_apart(m, q),
        queue::only_used_changed(m, a, q),
        frames_waiting(m, q, frames),
        0 <= k <= frames.len(),
        queue::one_turn(m, q) ==> queue::given_back(m, a, q, nothing(k as nat)),
    ensures
        ({
            let avail = laws::u16_at(m, q.avail_ring_addr + 2) as u16;
            let run = net::tx_run(
                a,
                queue::moved(q, k),
                sent + somes(frames.take(k)),
                avail,
                k > 0,
            );
            &&& run.result == Ok::<bool, QueueFault>(frames.len() > 0)
            &&& run.frames == sent + somes(frames)
            &&& run.queue == queue::moved(q, frames.len() as int)
            &&& queue::only_used_changed(m, run.mem, q)
            &&& queue::one_turn(m, q) ==> queue::given_back(m, run.mem, q, nothing(frames.len()))
        }),
    decreases frames.len() - k,
{
    if k < frames.len() {
        lemma_tx_step(m, q, a, frames, k);
        let head = queue::head_at(m, q, k) as u16;
        let b = queue::moved(q, k).put_used(a, head, 0).0;
        let v = frames[k];
        assert(frames.take(k + 1) =~= frames.take(k).push(v));
        lemma_somes_push(frames.take(k), v);
        let now = sent + somes(frames.take(k));
        assert(sent + somes(frames.take(k + 1)) =~= match v {
            Some(f) => now.push(f),
            None => now,
        });
        lemma_tx_run(m, q, b, sent, frames, k + 1);
    } else {
        queue::lemma_avail(m, q);
        assert(frames.take(k) =~= frames);
    }
}

/// After a notification of the transmit queue, the backend has been handed the
/// frames of all waiting chains, in order and each once, and nothing else. Every
/// chain is given back with no byte written, the driver sees that, and nothing
/// else changes in guest memory.
pub proof fn law_all_frames_are_sent(
    d: NetView,
    m: MemView,
    e: NetView,
    n: MemView,
    did: bool,
    frames: Seq<Option<Seq<u8>>>,
)
    requires
        d.io is Some,
        d.queues.len() == 2,
        queue::laid_out(m, d.queues[1]),
        queue::buffers_apart(m, d.queues[1]),
        frames_waiting(m, d.queues[1], frames),
        net::notified(d, m, 1, e, n, did),
    ensures
        ({
            let q = d.queues[1];
            &&& e.io is Some
            &&& e.io->0.sent == d.io->0.sent + somes(frames)
            &&& e.io->0.received == d.io->0.received
            &&& did == (frames.len() > 0)
            &&& e.queues[1] == queue::moved(q, frames.len() as int)
            &&& e.queues[0] == d.queues[0]
            &&& queue::only_used_changed(m, n, q)
            &&& queue::one_turn(m, q) ==> queue::given_back(
                m,
                n,
                q,
                nothing(frames.len()),
            )
            &&& frames.len() > 0 ==> queue::shown(n, q) == e.queues[1].last_used_idx
        }),
{
    let q = d.queues[1];
    let sent = d.io->0.sent;
    let count = frames.len() as int;
    queue::lemma_avail(m, q);
    queue::lemma_moved(q, 0);
    assert(frames.take(0) =~= Seq::<Option<Seq<u8>>>::empty());
    assert(sent + somes(frames.take(0)) =~= sent);
    lemma_tx_run(m, q, m, sent, frames, 0);
    let avail = laws::u16_at(m, q.avail_ring_addr + 2) as u16;
    let run = net::tx_run(m, q, sent, avail, false);
    queue::lemma_same_numbers(m, run.mem, q);
    if count > 0 {
        queue::lemma_put_idx(run.mem, q, count);
        if queue::one_turn(m, q) {
            queue::lemma_shown_keeps(
                m,
                run.mem,
                q,
                nothing(frames.len()),
                count,
            );
        }
    }
    assert(q.with_positions(run.queue) == queue::moved(q, count));
}

proof fn lemma_chain_stored(
    m0: MemView,
    m: MemView,
    q: VirtQueue,
    head: int,
    c: Seq<VirtqDesc>,
    b: Seq<u8>,
    k: int,
    w: u32,
)
    requires
        queue::laid_out(m0, q),
        queue::is_chain(m0, q, head, c),
        queue::laid_out(m, q),
        buffers::separate(m, q, c),
        forall|i: int|
            0 <= i < q.size ==> #[trigger] queue::desc_at(m, q, i) == queue::desc_at(m0, q, i),
        0 <= k < c.len(),
        buffers::before(c, k) < b.len() <= u32::MAX,
        w == buffers::before(c, k),
    ensures
        ({
            let (n, r) = net::chain_stored(
                m,
                q,
                c[k],
                b.skip(buffers::before(c, k)),
                k as nat,
                w,
            );
            let room = buffers::before(c, c.len() as int);
            &&& r is Ok
            &&& r->Ok_0 == if b.len() < room {
                b.len() as int
            } else {
                room
            }
            &&& buffers::hold_from(n, c, b, k)
            &&& buffers::only_changed_from(m, n, c, k)
        }),
    decreases c.len() - k,
{
    let d = c[k];
    let at = buffers::before(c, k);
    let rest = b.skip(at);
    let len = if rest.len() < d.len {
        rest.len() as int
    } else {
        d.len as int
    };
    buffers::lemma_before(c, 0, k);
    buffers::lemma_before(c, k + 1, c.len() as int);
    let part = b.subrange(at, at + len);
    assert(rest.subrange(0, len) =~= part);
    let m1 = m.store(d.addr as int, part);
    buffers::lemma_store(m, q, c, k, part);
    queue::lemma_flags(d);
    let (n, r) = net::chain_stored(m, q, d, rest, k as nat, w);
    if len == rest.len() || k + 1 == c.len() {
        if len < rest.len() {
            assert(c.last() == d);
        }
        assert(n == m1);
        buffers::lemma_rest_empty(n, c, b, k + 1);
        buffers::lemma_hold_step(m, m1, n, q, c, b, k, len);
    } else {
        assert(queue::goes_on(c[k]) && c[k].next < q.size && c[k + 1] == queue::desc_at(
            m0,
            q,
            c[k].next as int,
        ));
        queue::lemma_desc(m1, q, d.next);
        assert(rest.skip(len) =~= b.skip(at + len));
        assert(buffers::before(c, k + 1) == at + len);
        lemma_chain_stored(m0, m1, q, head, c, b, k + 1, (w + len) as u32);
        assert((n, r) == net::chain_stored(
            m1,
            q,
            c[k + 1],
            b.skip(at + len),
            (k + 1) as nat,
            (w + len) as u32,
        ));
        buffers::lemma_hold_step(m, m1, n, q, c, b, k, len);
    }
}

/// A frame that the guest gets stands in its next chain behind a header of 12
/// zeros, in one buffer after the other, and the chain is given back with as many
/// bytes. Only the chain's buffers and the used ring change.
pub proof fn law_frame_reaches_guest(
    m: MemView,
    q: VirtQueue,
    frame: Seq<u8>,
    c: Seq<VirtqDesc>,
)
    requires
        queue::laid_out(m, q),
        queue::is_chain(m, q, queue::head_at(m, q, 0), c),
        queue::for_device(c[0]),
        buffers::separate(m, q, c),
        0 < buffers::before(c, c.len() as int),
        12 + frame.len() <= u32::MAX,
    ensures
        ({
            let (n, p, d) = net::delivered(m, q, frame);
            let whole = Seq::new(12, |i: int| 0u8) + frame;
            let room = buffers::before(c, c.len() as int);
            &&& d is Done
            &&& p == queue::moved(q, 1)
            &&& buffers::hold(n, c, whole)
            &&& queue::is_used(
                n,
                q,
                0,
                queue::head_at(m, q, 0),
                if whole.len() < room {
                    whole.len() as int
                } else {
                    room
                },
            )
            &&& buffers::only_changed(m, n, q, c)
        }),
{
    reveal(net::delivered);
    let head = queue::head_at(m, q, 0) as u16;
    queue::lemma_moved(q, 0);
    queue::lemma_head(m, q, 0);
    queue::lemma_desc(m, q, head);
    queue::lemma_flags(c[0]);
    let b = net::with_header(frame);
    assert(b =~= Seq::new(12, |i: int| 0u8) + frame);
    assert(b.skip(0) =~= b);
    assert(buffers::before(c, 0) == 0);
    lemma_chain_stored(m, m, q, head as int, c, b, 0, 0);
    let (a, r) = net::chain_stored(m, q, c[0], b, 0, 0);
    buffers::lemma_same_descs(m, a, q, c, 0);
    queue::lemma_put_used(a, q, 0, head, r->Ok_0);
    let n = q.put_used(a, head, r->Ok_0).0;
    buffers::lemma_used_spares(m, a, n, q, c, b);
}

/// Whether a frame behind 12 zero bytes was put into the buffers of the next chain,
/// as far as they have room, and the driver is told how many bytes that are. Only
/// the buffers and the used ring may have changed.
#[verifier::opaque]
pub open spec fn is_given(
    m: MemView,
    n: MemView,
    q: VirtQueue,
    c: Seq<VirtqDesc>,
    frame: Seq<u8>,
) -> bool {
    let room = buffers::before(c, c.len() as int);
    &&& buffers::hold(n, c, Seq::new(12, |i: int| 0u8) + frame)
    &&& queue::is_used(
        n,
        q,
        0,
        queue::head_at(m, q, 0),
        if 12 + frame.len() < room {
            12 + frame.len() as int
        } else {
            room
        },
    )
    &&& buffers::only_changed(m, n, q, c)
}

/// As long as the backend has a frame and a chain waits, the frame is put into the
/// chain's buffers, and the next frame goes into the next chain.
pub proof fn law_receiving_goes_on(
    m: MemView,
    q: VirtQueue,
    c: Seq<VirtqDesc>,
    got: Seq<Option<Seq<u8>>>,
    avail: u16,
    processed: bool,
)
    requires
        queue::laid_out(m, q),
        q.last_avail_idx != avail,
        queue::is_chain(m, q, queue::head_at(m, q, 0), c),
        queue::for_device(c[0]),
        buffers::separate(m, q, c),
        0 < buffers::before(c, c.len() as int),
        got.len() > 0,
        got[0] is Some,
        12 + got[0]->Some_0.len() <= u32::MAX,
    ensures
        exists|n: MemView| #[trigger]
            is_given(m, n, q, c, got[0]->Some_0) && net::rx_run(m, q, got, avail, processed)
                == net::rx_run(n, queue::moved(q, 1), got.skip(1), avail, true) && (net::rx_complete(
                m,
                q,
                got,
                avail,
            ) <==> net::rx_complete(n, queue::moved(q, 1), got.skip(1), avail)),
{
    let frame = got[0]->Some_0;
    law_frame_reaches_guest(m, q, frame, c);
    let n = net::delivered(m, q, frame).0;
    assert(is_given(m, n, q, c, frame)) by {
        reveal(is_given);
    }
}

/// A chain whose first buffer is not for the device to write takes no frame.
/// Receiving ends there, the chain stays where it is, and the backend is not asked
/// again.
pub proof fn law_receiving_needs_room(
    m: MemView,
    q: VirtQueue,
    got: Seq<Option<Seq<u8>>>,
    avail: u16,
    processed: bool,
)
    requires
        queue::laid_out(m, q),
        q.last_avail_idx != avail,
        queue::head_at(m, q, 0) < q.size,
        !queue::for_device(queue::desc_at(m, q, queue::head_at(m, q, 0))),
        got.len() > 0,
        got[0] is Some,
    ensures
        net::rx_run(m, q, got, avail, processed).mem == m,
        net::rx_run(m, q, got, avail, processed).queue == q,
        net::rx_run(m, q, got, avail, processed).result == Ok::<bool, QueueFault>(processed),
        net::rx_complete(m, q, got, avail) <==> got.len() == 1,
{
    reveal(net::delivered);
    let head = queue::head_at(m, q, 0) as u16;
    queue::lemma_moved(q, 0);
    queue::lemma_head(m, q, 0);
    queue::lemma_desc(m, q, head);
    queue::lemma_flags(queue::desc_at(m, q, head as int));
}

/// Receiving ends when all chains are filled, without asking the backend again, or
/// when the backend has no frame.
pub proof fn law_receiving_ends(
    m: MemView,
    q: VirtQueue,
    got: Seq<Option<Seq<u8>>>,
    avail: u16,
    processed: bool,
)
    requires
        net::rx_complete(m, q, got, avail),
        q.last_avail_idx == avail || got[0] is None,
    ensures
        q.last_avail_idx == avail ==> got.len() == 0,
        q.last_avail_idx != avail ==> got == seq![None::<Seq<u8>>],
        net::rx_run(m, q, got, avail, processed).mem == m,
        net::rx_run(m, q, got, avail, processed).queue == q,
        net::rx_run(m, q, got, avail, processed).result == Ok::<bool, QueueFault>(processed),
{
    if q.last_avail_idx != avail {
        assert(got =~= seq![None::<Seq<u8>>]);
    }
}

proof fn lemma_stored_layout(
    m: MemView,
    q: VirtQueue,
    d: VirtqDesc,
    rest: Seq<u8>,
    visited: nat,
    written: u32,
)
    ensures
        ({
            let n = net::chain_stored(m, q, d, rest, visited, written).0;
            n.base == m.base && n.data.len() == m.data.len()
        }),
    decreases q.size - visited,
{
    if visited < q.size {
        let len = if rest.len() < d.len {
            rest.len() as int
        } else {
            d.len as int
        };
        let (m1, w) = if len > 0 {
            m.write(d.addr, rest.subrange(0, len))
        } else {
            (m, Ok(()))
        };
        if len < rest.len() && w is Ok && d.spec_has_next() {
            match q.desc(m1, d.next) {
                Err(_) => {},
                Ok(next) => {
                    lemma_stored_layout(
                        m1,
                        q,
                        next,
                        rest.skip(len),
                        visited + 1,
                        transport::sat_add(written, len),
                    );
                },
            }
        }
    }
}

proof fn lemma_delivered_layout(m: MemView, q: VirtQueue, frame: Seq<u8>)
    ensures
        ({
            let (n, p, d) = net::delivered(m, q, frame);
            &&& n.base == m.base
            &&& n.data.len() == m.data.len()
            &&& p == q || p == q.advanced()
        }),
{
    reveal(net::delivered);
    match q.avail_head(m) {
        Err(_) => {},
        Ok(head) => match q.desc(m, head) {
            Err(_) => {},
            Ok(d) => {
                lemma_stored_layout(m, q, d, net::with_header(frame), 0, 0);
            },
        },
    }
}

proof fn lemma_layout_stays(
    m: MemView,
    q: VirtQueue,
    got: Seq<Option<Seq<u8>>>,
    avail: u16,
    processed: bool,
)
    ensures
        ({
            let run = net::rx_run(m, q, got, avail, processed);
            &&& run.mem.base == m.base
            &&& run.mem.data.len() == m.data.len()
            &&& run.queue == (VirtQueue {
                last_avail_idx: run.queue.last_avail_idx,
                last_used_idx: run.queue.last_used_idx,
                ..q
            })
        }),
    decreases got.len(),
{
    if q.last_avail_idx != avail && got.len() > 0 && got[0] is Some {
        let (m1, q1, d) = net::delivered(m, q, got[0]->Some_0);
        lemma_delivered_layout(m, q, got[0]->Some_0);
        if d is Done {
            lemma_layout_stays(m1, q1, got.skip(1), avail, true);
        }
    }
}

/// A notification of the receive queue has all chains that wait filled with what
/// the backend gives, and then shows the driver how many were.
pub proof fn law_receive_queue_is_served(d: NetView, m: MemView, e: NetView, n: MemView, did: bool)
    requires
        d.io is Some,
        d.queues.len() == 2,
        queue::laid_out(m, d.queues[0]),
        net::notified(d, m, 0, e, n, did),
    ensures
        ({
            let q = d.queues[0];
            let old = d.io->0.received;
            let got = e.io->0.received.skip(old.len() as int);
            let avail = laws::u16_at(m, q.avail_ring_addr + 2) as u16;
            let run = net::rx_run(m, q, got, avail, false);
            &&& e.io is Some
            &&& e.io->0.received == old + got
            &&& e.io->0.sent == d.io->0.sent
            &&& e.queues[1] == d.queues[1]
            &&& net::rx_complete(m, q, got, avail)
            &&& e.queues[0].last_avail_idx == run.queue.last_avail_idx
            &&& e.queues[0].last_used_idx == run.queue.last_used_idx
            &&& run.result == Ok::<bool, QueueFault>(false) ==> n == run.mem && !did
            &&& run.result == Ok::<bool, QueueFault>(true) ==> did && queue::shown(n, q)
                == e.queues[0].last_used_idx && queue::only_used_changed(run.mem, n, q)
        }),
{
    let q = d.queues[0];
    let old = d.io->0.received;
    let got = e.io->0.received.skip(old.len() as int);
    let avail = laws::u16_at(m, q.avail_ring_addr + 2) as u16;
    queue::lemma_avail(m, q);
    assert(e.io->0.received =~= old + got) by {
        let after = e.io->0.received;
        assert forall|i: int| 0 <= i < old.len() implies after[i] == old[i] by {
            assert(after.subrange(0, old.len() as int)[i] == after[i]);
        }
    }
    let run = net::rx_run(m, q, got, avail, false);
    lemma_layout_stays(m, q, got, avail, false);
    if run.result == Ok::<bool, QueueFault>(true) {
        let p = VirtQueue { last_used_idx: run.queue.last_used_idx, ..q };
        queue::lemma_moved(p, 0);
        queue::lemma_put_idx(run.mem, p, 0);
        assert(run.queue.put_used_idx(run.mem) == p.put_used_idx(run.mem));
    }
}

} // verus!
