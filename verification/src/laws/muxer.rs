//! How the muxer serves host streams and hands out ports.

use crate::devices::vsock::{self, ConnMapKey, Entry, VsockView};
use crate::devices::vsock_conn::ConnView;
use crate::devices::vsock_muxer::{self, MuxerView, StreamRead};
use vstd::prelude::*;

verus! {

proof fn lemma_place(streams: Seq<ConnMapKey>, i: int, k: int)
    requires
        0 <= k <= i < streams.len(),
        forall|j: int| k <= j < i ==> #[trigger] streams[j] != streams[i],
    ensures
        vsock_muxer::place(streams, streams[i], k) == i,
    decreases i - k,
{
    if k < i {
        assert(streams[k] != streams[i]);
        lemma_place(streams, i, k + 1);
    }
}

/// In a round every stream's connection takes what was read from that stream and
/// hands out all that waits for the host. What was handed out counts as read.
pub proof fn law_round_serves_every_stream(
    conns: Seq<Entry>,
    streams: Seq<ConnMapKey>,
    reads: Seq<StreamRead>,
    i: int,
    j: int,
)
    requires
        streams.no_duplicates(),
        reads.len() == streams.len(),
        0 <= i < streams.len(),
        0 <= j < conns.len(),
        conns[j].0 == streams[i],
        conns[j].1.tx.len() <= 0x1_0000,
    ensures
        ({
            let out = vsock_muxer::served(conns, streams, reads, streams.len() as int);
            let c = conns[j].1;
            let d = out[j].1;
            &&& out.len() == conns.len()
            &&& out[j].0 == streams[i]
            &&& d.tx.len() == 0
            &&& d.fwd_cnt == (c.fwd_cnt + c.tx.len()) % 0x1_0000_0000
            &&& d.state == c.state
            &&& d.rx == match reads[i] {
                StreamRead::Bytes(b) => c.rx + b@,
                _ => c.rx,
            }
            &&& d.host_closed == (c.host_closed || match reads[i] {
                StreamRead::Bytes(b) => b@.len() == 0,
                StreamRead::WouldBlock => false,
                StreamRead::Failed => true,
            })
        }),
{
    lemma_place(streams, i, 0);
    let c = conns[j].1;
    match reads[i] {
        StreamRead::Bytes(b) => {
            if b@.len() == 0 {
                assert(c.rx + b@ =~= c.rx);
            }
        },
        _ => {},
    }
}

/// What a round hands out comes from the streams' connections, in the streams'
/// order.
pub proof fn law_round_hands_out_only_what_waits(
    conns: Seq<Entry>,
    streams: Seq<ConnMapKey>,
    n: int,
    k: int,
) -> (i: int)
    requires
        0 <= n <= streams.len(),
        0 <= k < vsock_muxer::outgoing(conns, streams, n).len(),
    ensures
        k <= i < n,
        vsock_muxer::outgoing(conns, streams, n)[k].0 == streams[i],
        vsock::has_key(conns, streams[i]),
        vsock_muxer::outgoing(conns, streams, n)[k].1 == vsock::entry_of(conns, streams[i]).tx,
        vsock_muxer::outgoing(conns, streams, n)[k].1.len() > 0,
    decreases n,
{
    let rest = vsock_muxer::outgoing(conns, streams, n - 1);
    if k < rest.len() {
        law_round_hands_out_only_what_waits(conns, streams, n - 1, k)
    } else {
        lemma_out_len(conns, streams, n - 1);
        n - 1
    }
}

proof fn lemma_out_len(conns: Seq<Entry>, streams: Seq<ConnMapKey>, n: int)
    requires
        0 <= n,
    ensures
        vsock_muxer::outgoing(conns, streams, n).len() <= n,
    decreases n,
{
    if n > 0 {
        lemma_out_len(conns, streams, n - 1);
    }
}

proof fn lemma_free(ports: Set<u32>, next: u32, k: int)
    requires
        0 <= k <= 0x4000_0000,
    ensures
        k <= vsock_muxer::first_free(ports, next, k) <= 0x4000_0000,
        forall|j: int|
            k <= j < vsock_muxer::first_free(ports, next, k) ==> ports.contains(
                #[trigger] vsock_muxer::nth_port(next, j),
            ),
        vsock_muxer::first_free(ports, next, k) < 0x4000_0000 ==> !ports.contains(
            vsock_muxer::nth_port(next, vsock_muxer::first_free(ports, next, k)),
        ),
    decreases 0x4000_0000 - k,
{
    if k < 0x4000_0000 && ports.contains(vsock_muxer::nth_port(next, k)) {
        lemma_free(ports, next, k + 1);
    }
}

/// The port that is handed out is the next one that is free, counting on from the
/// one behind that handed out before and beginning again behind the last. Those
/// that were passed over are all in use, and the next search begins behind it.
pub proof fn law_next_free_port(m: MuxerView)
    requires
        m.wf(),
        m.allocated().1 is Some,
    ensures
        ({
            let (n, r) = m.allocated();
            let p = r->0;
            &&& 0x4000_0000 <= p < 0x8000_0000
            &&& !m.ports.contains(p)
            &&& n.ports == m.ports.insert(p)
            &&& n.next_port == if p == 0x7fff_ffff {
                0x4000_0000
            } else {
                p + 1
            }
            &&& n.streams == m.streams
            &&& p >= m.next_port ==> forall|q: u32|
                m.next_port <= q < p ==> #[trigger] m.ports.contains(q)
            &&& p < m.next_port ==> forall|q: u32|
                m.next_port <= q < 0x8000_0000 || 0x4000_0000 <= q < p ==> #[trigger]
                m.ports.contains(q)
        }),
{
    let next = m.next_port;
    let k = vsock_muxer::first_free(m.ports, next, 0);
    lemma_free(m.ports, next, 0);
    let p = vsock_muxer::nth_port(next, k);
    let at = next - 0x4000_0000;
    assert(p == 0x4000_0000 + (at + k) % 0x4000_0000);
    assert forall|q: u32|
        (p >= next && next <= q < p) || (p < next && (next <= q < 0x8000_0000 || 0x4000_0000 <= q
            < p)) implies #[trigger] m.ports.contains(q) by {
        let j = if q >= next {
            q - next
        } else {
            q - next + 0x4000_0000
        };
        assert(vsock_muxer::nth_port(next, j) == q);
    }
}

/// A connection that a host process asks for starts between the host and the guest,
/// with nothing sent, and asks the guest.
pub proof fn law_asked_connection(guest_cid: u64, key: ConnMapKey)
    ensures
        ({
            let c: ConnView = vsock_muxer::asked_connection(guest_cid, key);
            &&& c.state == crate::devices::vsock_conn::ConnState::LocalInit
            &&& c.local_cid == 2
            &&& c.peer_cid == guest_cid
            &&& c.local_port == key.local_port
            &&& c.peer_port == key.peer_port
            &&& c.tx.len() == 0 && c.rx.len() == 0
            &&& c.peer_buf_alloc == 0 && c.peer_fwd_cnt == 0 && c.rx_cnt == 0 && c.fwd_cnt == 0
            &&& c.expiry is None && !c.host_closed
            &&& forall|it: crate::devices::vsock_conn::PendingRx| #[trigger]
                c.pending.contains(it) <==> it == crate::devices::vsock_conn::PendingRx::Request
        }),
{
}

/// Closing streams leaves the connections of all others as they are, and the device
/// keeps nothing of those.
pub proof fn law_cleanup_spares_others(
    m: MuxerView,
    d: VsockView,
    dead: Seq<ConnMapKey>,
    e: Entry,
)
    ensures
        ({
            let (n, f) = vsock_muxer::cleaned(m, d, dead);
            &&& f.conns.contains(e) <==> d.conns.contains(e) && !dead.contains(e.0)
            &&& n.next_port == m.next_port
            &&& n.guest_cid == m.guest_cid
            &&& f.guest_cid == d.guest_cid
            &&& f.queues == d.queues
        }),
{
    let keep = |x: Entry| !dead.contains(x.0);
    let out = d.conns.filter(keep);
    d.conns.filter_lemma(keep);
    if d.conns.contains(e) && !dead.contains(e.0) {
        let i = choose|i: int| 0 <= i < d.conns.len() && d.conns[i] == e;
        assert(keep(d.conns[i]));
        assert(out.contains(d.conns[i]));
    }
    if out.contains(e) {
        let i = choose|i: int| 0 <= i < out.len() && out[i] == e;
        assert(keep(out[i]));
        lemma_filter_part(d.conns, keep, i);
    }
}

proof fn lemma_filter_part(s: Seq<Entry>, keep: spec_fn(Entry) -> bool, i: int)
    requires
        0 <= i < s.filter(keep).len(),
    ensures
        s.contains(s.filter(keep)[i]),
    decreases s.len(),
{
    reveal(Seq::filter);
    let rest = s.drop_last();
    let f = rest.filter(keep);
    if i < f.len() {
        lemma_filter_part(rest, keep, i);
        assert(s.filter(keep)[i] == f[i]);
        let j = choose|j: int| 0 <= j < rest.len() && rest[j] == f[i];
        assert(s[j] == f[i]);
    } else {
        assert(s.filter(keep)[i] == s[s.len() - 1]);
    }
}

/// A connection to a port of the guest is opened from the next free local port, if
/// there is one, and leaves the others.
pub proof fn law_opened_connection(m: MuxerView, d: VsockView, peer_port: u32)
    requires
        m.wf(),
        vsock::keys_distinct(d.conns),
    ensures
        ({
            let (n, f, r) = vsock_muxer::opened(m, d, peer_port);
            &&& n == m.allocated().0
            &&& m.allocated().1 is None ==> r is None && f == d
            &&& m.allocated().1 is Some ==> {
                let key = ConnMapKey { local_port: m.allocated().1->0, peer_port };
                &&& r == Some(key)
                &&& f.conns.contains((key, vsock_muxer::asked_connection(m.guest_cid, key)))
                &&& forall|i: int|
                    0 <= i < d.conns.len() && (#[trigger] d.conns[i]).0 != key ==> f.conns[i]
                        == d.conns[i]
                &&& f.queues == d.queues
            }
        }),
{
    if m.allocated().1 is Some {
        let key = ConnMapKey { local_port: m.allocated().1->0, peer_port };
        let c = vsock_muxer::asked_connection(m.guest_cid, key);
        vsock::lemma_find(d.conns, key, 0);
        let k = vsock::find_from(d.conns, key, 0);
        let out = vsock::with_conn(d.conns, key, c);
        assert(out[k] == (key, c));
    }
}

/// A stream is given up in a round if and only if it has ended or failed, or its
/// connection is gone or killed.
pub proof fn law_only_ended_streams_are_closed(
    conns: Seq<Entry>,
    streams: Seq<ConnMapKey>,
    reads: Seq<StreamRead>,
    n: int,
    key: ConnMapKey,
)
    requires
        0 <= n <= streams.len(),
        reads.len() == streams.len(),
    ensures
        vsock_muxer::with_lost(
            vsock_muxer::over(conns, streams, streams.len() as int),
            streams,
            reads,
            n,
        ).contains(key) ==> (exists|i: int|
            0 <= i < streams.len() && #[trigger] streams[i] == key && vsock_muxer::is_over(
                conns,
                key,
            )) || (exists|i: int|
            0 <= i < n && #[trigger] streams[i] == key && reads[i].spec_lost()),
    decreases n,
{
    let dead = vsock_muxer::over(conns, streams, streams.len() as int);
    let all = vsock_muxer::with_lost(dead, streams, reads, n);
    if all.contains(key) {
        if n == 0 {
            lemma_over(conns, streams, streams.len() as int, key);
        } else {
            let rest = vsock_muxer::with_lost(dead, streams, reads, n - 1);
            law_only_ended_streams_are_closed(conns, streams, reads, n - 1, key);
            if !rest.contains(key) {
                let j = choose|j: int| 0 <= j < all.len() && all[j] == key;
                if j < rest.len() {
                    assert(rest[j] == key);
                }
                assert(streams[n - 1] == key);
            }
        }
    }
}

proof fn lemma_over(conns: Seq<Entry>, streams: Seq<ConnMapKey>, n: int, key: ConnMapKey)
    requires
        0 <= n <= streams.len(),
        vsock_muxer::over(conns, streams, n).contains(key),
    ensures
        exists|i: int|
            0 <= i < n && #[trigger] streams[i] == key && vsock_muxer::is_over(conns, key),
    decreases n,
{
    let all = vsock_muxer::over(conns, streams, n);
    if n > 0 {
        let rest = vsock_muxer::over(conns, streams, n - 1);
        if rest.contains(key) {
            lemma_over(conns, streams, n - 1, key);
        } else {
            let j = choose|j: int| 0 <= j < all.len() && all[j] == key;
            if j < rest.len() {
                assert(rest[j] == key);
            }
            assert(streams[n - 1] == key);
        }
    }
}

} // verus!
