//! How the file system device takes requests from guest memory and puts answers
//! there.

use crate::devices::fs::{self, FsRunView, Outcome, PendingView, StopView};
use crate::devices::fuse::{FuseView, HostReplyView};
use crate::laws;
use crate::laws::{buffers, queue};
use crate::memory::{MemView, MemoryError};
use crate::transport::{VirtQueue, VirtqDesc};
use vstd::prelude::*;

verus! {

/// The buffers of a chain from the `s`-th on.
pub open spec fn room(c: Seq<VirtqDesc>, s: int) -> Seq<VirtqDesc> {
    c.subrange(s, c.len() as int)
}

/// Whether the next chain holds this request: its bytes lie in the first `s`
/// buffers, and the others are for the device to write.
#[verifier::opaque]
pub open spec fn is_request(
    m: MemView,
    q: VirtQueue,
    c: Seq<VirtqDesc>,
    s: int,
    req: Seq<u8>,
) -> bool {
    &&& queue::laid_out(m, q)
    &&& queue::is_chain(m, q, queue::head_at(m, q, 0), c)
    &&& buffers::separate(m, q, c)
    &&& 0 <= s <= c.len()
    &&& forall|i: int| 0 <= i < s ==> !queue::for_device(#[trigger] c[i])
    &&& forall|i: int| s <= i < c.len() ==> queue::for_device(#[trigger] c[i])
    &&& req == queue::gathered(m, c.subrange(0, s))
}

/// Whether the next chain was given back with this answer in the buffers that are
/// for the device to write, one behind the other. Only they and the used ring may
/// have changed.
#[verifier::opaque]
pub open spec fn is_given(
    m: MemView,
    n: MemView,
    q: VirtQueue,
    c: Seq<VirtqDesc>,
    s: int,
    answer: Seq<u8>,
) -> bool {
    let size = buffers::before(room(c, s), room(c, s).len() as int);
    &&& buffers::hold(n, room(c, s), answer)
    &&& queue::is_used(
        n,
        q,
        0,
        queue::head_at(m, q, 0),
        if answer.len() < size {
            answer.len() as int
        } else {
            size
        },
    )
    &&& buffers::only_changed(m, n, q, room(c, s))
}

/// The work that goes on behind the next request.
pub open spec fn behind(run: FsRunView) -> FsRunView {
    FsRunView { queue: queue::moved(run.queue, 1), processed: true, active: None, ..run }
}

proof fn lemma_readable(m: MemView, q: VirtQueue, c: Seq<VirtqDesc>, s: int, i: int)
    requires
        buffers::separate(m, q, c),
        0 <= s <= c.len(),
        forall|i: int| 0 <= i < s ==> !queue::for_device(#[trigger] c[i]),
        forall|i: int| s <= i < c.len() ==> queue::for_device(#[trigger] c[i]),
        0 <= i <= c.len(),
    ensures
        i <= s ==> fs::readable_bytes(m, c, i) == Some(queue::gathered(m, c.subrange(i, s))),
        i > s ==> fs::readable_bytes(m, c, i) == Some(Seq::<u8>::empty()),
    decreases c.len() - i,
{
    if i < c.len() {
        lemma_readable(m, q, c, s, i + 1);
        queue::lemma_flags(c[i]);
        if i < s {
            let d = c[i];
            assert(queue::held(m, d)) by {
                reveal(buffers::separate);
            }
            queue::lemma_slice(m, d.addr as int, d.len as int);
            let part = c.subrange(i, s);
            assert(part[0] == d);
            assert(part.skip(1) =~= c.subrange(i + 1, s));
        } else if i == s {
            assert(c.subrange(i, s).len() == 0);
        }
    } else if i == s {
        assert(c.subrange(i, s).len() == 0);
    }
}

proof fn lemma_responded(
    m: MemView,
    q: VirtQueue,
    c: Seq<VirtqDesc>,
    s: int,
    b: Seq<u8>,
    k: int,
    off: int,
)
    requires
        queue::laid_out(m, q),
        0 <= s <= c.len(),
        forall|i: int| s <= i < c.len() ==> queue::for_device(#[trigger] c[i]),
        buffers::separate(m, q, room(c, s)),
        0 <= k <= c.len() - s,
        b.len() <= u32::MAX,
        0 <= off <= b.len(),
        off == buffers::before(room(c, s), k) || off == b.len() <= buffers::before(room(c, s), k),
    ensures
        ({
            let (n, r) = fs::responded(m, c, s + k, b, off, off as u32);
            let size = buffers::before(room(c, s), room(c, s).len() as int);
            &&& r is Ok
            &&& r->Ok_0 == if b.len() < size {
                b.len() as int
            } else {
                size
            }
            &&& buffers::hold_from(n, room(c, s), b, k)
            &&& buffers::only_changed_from(m, n, room(c, s), k)
        }),
    decreases c.len() - k,
{
    let w = room(c, s);
    buffers::lemma_before(w, 0, k);
    buffers::lemma_before(w, k, w.len() as int);
    if k == w.len() || off == b.len() {
        buffers::lemma_rest_empty(m, w, b, k);
    } else {
        let d = w[k];
        assert(d == c[s + k]);
        queue::lemma_flags(d);
        let len = if d.len < b.len() - off {
            d.len as int
        } else {
            b.len() - off
        };
        let part = b.subrange(off, off + len);
        let m1 = m.store(d.addr as int, part);
        buffers::lemma_store(m, q, w, k, part);
        assert(buffers::before(w, k + 1) == buffers::before(w, k) + d.len);
        lemma_responded(m1, q, c, s, b, k + 1, off + len);
        let n = fs::responded(m1, c, s + (k + 1), b, off + len, (off + len) as u32).0;
        buffers::lemma_hold_step(m, m1, n, q, w, b, k, len);
    }
}

proof fn lemma_first_writable(m: MemView, c: Seq<VirtqDesc>, s: int, b: Seq<u8>, i: int)
    requires
        0 <= i <= s <= c.len(),
        forall|i: int| 0 <= i < s ==> !queue::for_device(#[trigger] c[i]),
    ensures
        fs::responded(m, c, i, b, 0, 0) == fs::responded(m, c, s, b, 0, 0),
    decreases s - i,
{
    if i < s {
        queue::lemma_flags(c[i]);
        lemma_first_writable(m, c, s, b, i + 1);
    }
}

proof fn lemma_answered(m: MemView, q: VirtQueue, c: Seq<VirtqDesc>, s: int, req: Seq<u8>, b: Seq<u8>)
    requires
        is_request(m, q, c, s, req),
        b.len() <= u32::MAX,
    ensures
        ({
            let (a, w) = fs::answered(m, c, b);
            let head = queue::head_at(m, q, 0) as u16;
            let (n, r) = q.put_used(a, head, w);
            &&& r is Ok
            &&& is_given(m, n, q, c, s, b)
        }),
{
    reveal(is_request);
    reveal(is_given);
    reveal(fs::answered);
    let head = queue::head_at(m, q, 0) as u16;
    buffers::lemma_separate_part(m, q, c, s, c.len() as int);
    lemma_first_writable(m, c, s, b, 0);
    assert(buffers::before(room(c, s), 0) == 0);
    lemma_responded(m, q, c, s, b, 0, 0);
    let (a, w) = fs::answered(m, c, b);
    buffers::lemma_same_descs(m, a, q, room(c, s), 0);
    queue::lemma_moved(q, 0);
    queue::lemma_put_used(a, q, 0, head, w);
    let n = q.put_used(a, head, w).0;
    buffers::lemma_used_spares(m, a, n, q, room(c, s), b);
}

proof fn lemma_taken(m: MemView, q: VirtQueue, c: Seq<VirtqDesc>, s: int, req: Seq<u8>)
    requires
        is_request(m, q, c, s, req),
    ensures
        ({
            let head = queue::head_at(m, q, 0) as u16;
            &&& q.avail_head(m) == Ok::<u16, MemoryError>(head)
            &&& fs::request_in(m, q, head) == Some((req, c))
        }),
{
    reveal(is_request);
    let head = queue::head_at(m, q, 0) as u16;
    queue::lemma_moved(q, 0);
    queue::lemma_head(m, q, 0);
    queue::lemma_chain(m, q, head, c, 0);
    lemma_readable(m, q, c, s, 0);
}

proof fn lemma_turn(m: MemView, files: FuseView, run: FsRunView, head: u16)
    requires
        run.queue.last_avail_idx != run.avail,
        run.queue.avail_head(m) == Ok::<u16, MemoryError>(head),
    ensures
        ({
            let (m1, f1, o) = fs::handled(m, files, run.queue, head);
            match o {
                Outcome::Written(n) => fs::go_on(m, files, run) == fs::after_request(
                    m1,
                    f1,
                    run,
                    head,
                    n,
                ),
                Outcome::Ask(op, p) => fs::go_on(m, files, run) == (fs::Stopped {
                    mem: m1,
                    files: f1,
                    run: FsRunView { active: Some(p), ..run },
                    stop: StopView::Host(op),
                }),
            }
        }),
{
}

proof fn lemma_after(m: MemView, files: FuseView, run: FsRunView, head: u16, w: u32)
    requires
        run.queue.last_avail_idx != run.avail,
        run.queue.put_used(m, head, w).1 is Ok,
    ensures
        fs::after_request(m, files, run, head, w) == fs::go_on(
            run.queue.put_used(m, head, w).0,
            files,
            behind(run),
        ),
{
    queue::lemma_moved(run.queue, 1);
    assert(run.queue.advanced() == queue::moved(run.queue, 1));
}

/// A request whose answer is known at once has it put into its buffers, and the
/// work goes on behind it with what is then known of files.
pub proof fn law_answer_reaches_guest(
    m: MemView,
    files: FuseView,
    run: FsRunView,
    c: Seq<VirtqDesc>,
    s: int,
    req: Seq<u8>,
)
    requires
        run.queue.last_avail_idx != run.avail,
        is_request(m, run.queue, c, s, req),
        files.requested(req).1 is Reply,
        files.requested(req).1->Reply_0.len() <= u32::MAX,
    ensures
        exists|n: MemView| #[trigger]
            is_given(m, n, run.queue, c, s, files.requested(req).1->Reply_0) && fs::go_on(
                m,
                files,
                run,
            ) == fs::go_on(n, files.requested(req).0, behind(run)),
{
    let q = run.queue;
    let head = queue::head_at(m, q, 0) as u16;
    let (f1, a) = files.requested(req);
    let b = a->Reply_0;
    lemma_taken(m, q, c, s, req);
    lemma_turn(m, files, run, head);
    let (m1, w) = fs::answered(m, c, b);
    assert(fs::handled(m, files, q, head) == (m1, f1, Outcome::Written(w))) by {
        reveal(fs::handled);
    }
    lemma_answered(m, q, c, s, req, b);
    lemma_after(m1, f1, run, head, w);
    assert(is_given(m, q.put_used(m1, head, w).0, q, c, s, b));
}

/// A request that the host is asked for leaves guest memory as it is until the
/// host has replied. The answer that follows from the reply is then put into the
/// request's buffers, and the work goes on behind it.
pub proof fn law_host_reply_reaches_guest(
    m: MemView,
    files: FuseView,
    run: FsRunView,
    c: Seq<VirtqDesc>,
    s: int,
    req: Seq<u8>,
    reply: HostReplyView,
)
    requires
        run.queue.last_avail_idx != run.avail,
        is_request(m, run.queue, c, s, req),
        files.requested(req).1 is Ask,
        files.requested(req).0.informed(
            files.requested(req).1->Ask_1,
            files.requested(req).1->Ask_2,
            reply,
        ).1.len() <= u32::MAX,
    ensures
        ({
            let (f1, a) = files.requested(req);
            let (f2, answer) = f1.informed(a->Ask_1, a->Ask_2, reply);
            let asked = fs::go_on(m, files, run);
            &&& asked.stop == StopView::Host(a->Ask_0)
            &&& asked.mem == m
            &&& asked.files == f1
            &&& exists|n: MemView| #[trigger]
                is_given(m, n, run.queue, c, s, answer) && fs::resumed(m, f1, asked.run, reply)
                    == fs::go_on(n, f2, behind(run))
        }),
{
    let q = run.queue;
    let head = queue::head_at(m, q, 0) as u16;
    let (f1, a) = files.requested(req);
    let (f2, answer) = f1.informed(a->Ask_1, a->Ask_2, reply);
    lemma_taken(m, q, c, s, req);
    lemma_turn(m, files, run, head);
    let p = PendingView { head, chain: c, unique: a->Ask_1, wait: a->Ask_2 };
    assert(fs::handled(m, files, q, head) == (m, f1, Outcome::Ask(a->Ask_0, p))) by {
        reveal(fs::handled);
    }
    let held = FsRunView { active: Some(p), ..run };
    let (m1, w) = fs::answered(m, c, answer);
    lemma_answered(m, q, c, s, req, answer);
    lemma_after(m1, f2, held, head, w);
    assert(behind(held) == behind(run));
    assert(is_given(m, q.put_used(m1, head, w).0, q, c, s, answer));
}

/// A request that wants no answer is given back with nothing stored.
pub proof fn law_silent_request_is_given_back(
    m: MemView,
    files: FuseView,
    run: FsRunView,
    c: Seq<VirtqDesc>,
    s: int,
    req: Seq<u8>,
)
    requires
        run.queue.last_avail_idx != run.avail,
        is_request(m, run.queue, c, s, req),
        files.requested(req).1 is Silent,
    ensures
        exists|n: MemView| #[trigger]
            is_given(m, n, run.queue, c, s, Seq::empty()) && fs::go_on(m, files, run) == fs::go_on(
                n,
                files.requested(req).0,
                behind(run),
            ),
{
    let q = run.queue;
    let head = queue::head_at(m, q, 0) as u16;
    let f1 = files.requested(req).0;
    let b = Seq::<u8>::empty();
    lemma_taken(m, q, c, s, req);
    lemma_turn(m, files, run, head);
    assert(fs::handled(m, files, q, head) == (m, f1, Outcome::Written(0))) by {
        reveal(fs::handled);
    }
    lemma_answered(m, q, c, s, req, b);
    assert(fs::answered(m, c, b) == (m, 0u32)) by {
        reveal(fs::answered);
    }
    lemma_after(m, f1, run, head, 0);
    assert(is_given(m, q.put_used(m, head, 0).0, q, c, s, b));
}

/// Work on a queue takes everything that waits.
pub proof fn law_work_starts_with_all_waiting(m: MemView, files: FuseView, q: VirtQueue)
    requires
        queue::laid_out(m, q),
    ensures
        fs::begun(m, files, q) == fs::go_on(
            m,
            files,
            FsRunView {
                queue: q,
                avail: laws::u16_at(m, q.avail_ring_addr + 2) as u16,
                processed: false,
                active: None,
            },
        ),
{
    queue::lemma_avail(m, q);
}

/// Work on a queue ends by showing the driver how many chains were given back.
pub proof fn law_work_ends_shown(m: MemView, files: FuseView, run: FsRunView)
    requires
        run.queue.last_avail_idx == run.avail,
        queue::laid_out(m, run.queue),
    ensures
        ({
            let s = fs::go_on(m, files, run);
            &&& s.stop == StopView::Finished(Ok(run.processed))
            &&& s.run == run
            &&& s.files == files
            &&& queue::only_used_changed(m, s.mem, run.queue)
            &&& run.processed ==> queue::shown(s.mem, run.queue) == run.queue.last_used_idx
            &&& !run.processed ==> s.mem == m
        }),
{
    queue::lemma_moved(run.queue, 0);
    queue::lemma_put_idx(m, run.queue, 0);
}

/// A queue that the driver has not set up is left alone.
pub proof fn law_unready_queue_untouched(m: MemView, files: FuseView, q: VirtQueue)
    requires
        !q.ready || q.size == 0,
    ensures
        fs::begun(m, files, q).mem == m,
        fs::begun(m, files, q).files == files,
        fs::begun(m, files, q).stop == StopView::Finished(Ok(false)),
        fs::begun(m, files, q).run.queue == q,
{
}

} // verus!
