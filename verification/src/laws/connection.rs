//! What a connection between guest and host does with packets and bytes.

use crate::devices::vsock_conn::{ConnState, ConnView, PendingRx, VsockPacket};
use vstd::prelude::*;

verus! {

/// Whether the guest may still send to the host.
pub open spec fn guest_sends(c: ConnView) -> bool {
    c.state == ConnState::Established || (c.state is PeerClosed && !c.state->PeerClosed_1)
}

/// Whether the guest still takes bytes of the host.
pub open spec fn guest_takes(c: ConnView) -> bool {
    c.state == ConnState::Established || (c.state is PeerClosed && !c.state->PeerClosed_0)
}

/// How many bytes the guest has room for: its buffer less the bytes that it was sent
/// and has not read.
pub open spec fn guest_room(c: ConnView) -> int {
    let unread = (c.rx_cnt - c.peer_fwd_cnt) % 0x1_0000_0000;
    if unread < c.peer_buf_alloc {
        c.peer_buf_alloc - unread
    } else {
        0
    }
}

/// Whether a packet goes from the host's end of a connection to the guest's, with
/// this operation and the state of the host's 64 KiB buffer.
pub open spec fn is_reply(c: ConnView, p: VsockPacket, op: int, len: int, flags: int) -> bool {
    &&& p.src_cid == c.local_cid
    &&& p.dst_cid == c.peer_cid
    &&& p.src_port == c.local_port
    &&& p.dst_port == c.peer_port
    &&& p.len == len
    &&& p.pkt_type == 1
    &&& p.op == op
    &&& p.flags == flags
    &&& p.buf_alloc == 0x1_0000
    &&& p.fwd_cnt == c.fwd_cnt
}

/// Whether two connections have the same ends.
pub open spec fn same_ends(c: ConnView, d: ConnView) -> bool {
    &&& d.local_cid == c.local_cid
    &&& d.peer_cid == c.peer_cid
    &&& d.local_port == c.local_port
    &&& d.peer_port == c.peer_port
}

/// Whether nothing is due to the guest but data and credit.
pub open spec fn settled(c: ConnView) -> bool {
    &&& !c.pending.contains(PendingRx::Rst)
    &&& !c.pending.contains(PendingRx::Response)
    &&& !c.pending.contains(PendingRx::Request)
}

/// The time a number of milliseconds on, as far as time goes.
pub open spec fn deadline(now: u64, ms: int) -> int {
    if now + ms < u64::MAX {
        now + ms
    } else {
        u64::MAX as int
    }
}

/// The room that the guest has is its buffer less what is on the way.
pub proof fn law_credit_is_room(c: ConnView)
    ensures
        c.credit() == guest_room(c),
{
}

/// Every packet of the guest tells how much room it has, and leaves what waits for
/// it and how much was read of what it sent.
pub proof fn law_packets_tell_room(c: ConnView, pkt: VsockPacket, payload: Seq<u8>, now: u64)
    ensures
        ({
            let d = c.sent(pkt, payload, now).0;
            &&& same_ends(c, d)
            &&& d.peer_buf_alloc == pkt.buf_alloc
            &&& d.peer_fwd_cnt == pkt.fwd_cnt
            &&& d.rx == c.rx
            &&& d.rx_cnt == c.rx_cnt
            &&& d.fwd_cnt == c.fwd_cnt
            &&& d.last_fwd_cnt_to_peer == c.last_fwd_cnt_to_peer
            &&& d.host_closed == c.host_closed
            &&& guest_room(d) > 0 && d.rx.len() > 0 ==> d.pending.contains(PendingRx::Rw)
            &&& forall|it: PendingRx| #[trigger]
                c.pending.contains(it) ==> d.pending.contains(it)
        }),
{
    law_credit_is_room(c.sent(pkt, payload, now).0);
}

/// Data of a guest that may send stands behind what it sent before, if the 64 KiB
/// of the host's buffer hold it. If they do not, it is refused and nothing is
/// taken.
pub proof fn law_guest_data_is_kept(c: ConnView, pkt: VsockPacket, payload: Seq<u8>, now: u64)
    requires
        pkt.op == 5,
        guest_sends(c),
    ensures
        ({
            let (d, ok) = c.sent(pkt, payload, now);
            let fits = c.tx.len() + payload.len() <= 0x1_0000;
            &&& payload.len() > 0 ==> ok == fits
            &&& payload.len() == 0 ==> ok
            &&& fits ==> d.tx == c.tx + payload
            &&& !fits ==> d.tx == c.tx
            &&& d.state == c.state
            &&& d.expiry == c.expiry
        }),
{
    let d = c.sent(pkt, payload, now).0;
    if payload.len() == 0 {
        assert(c.tx + payload =~= c.tx);
    }
}

/// Packets other than data, and data of a guest that may not send, leave the bytes
/// for the host.
pub proof fn law_other_packets_hold_no_data(
    c: ConnView,
    pkt: VsockPacket,
    payload: Seq<u8>,
    now: u64,
)
    requires
        pkt.op != 5 || !guest_sends(c),
    ensures
        c.sent(pkt, payload, now).0.tx == c.tx,
        c.sent(pkt, payload, now).1,
{
}

/// A connection that the host asked for stands once the guest has agreed.
pub proof fn law_agreement_establishes(c: ConnView, pkt: VsockPacket, payload: Seq<u8>, now: u64)
    requires
        pkt.op == 2,
        c.state == ConnState::LocalInit,
    ensures
        c.sent(pkt, payload, now).0.state == ConnState::Established,
        c.sent(pkt, payload, now).0.expiry is None,
{
}

/// A guest that shuts down no longer takes bytes if the lowest flag says so, and no
/// longer sends if the next one does, then and from then on. Once it does neither,
/// the connection is reset as soon as the host has read all that it sent, and at
/// the latest two seconds after it began to close.
pub proof fn law_shutdown_closes(c: ConnView, pkt: VsockPacket, payload: Seq<u8>, now: u64)
    requires
        pkt.op == 4,
        c.state == ConnState::Established || c.state is PeerClosed,
    ensures
        ({
            let d = c.sent(pkt, payload, now).0;
            let no_recv = pkt.flags % 2 == 1 || (c.state is PeerClosed && c.state->PeerClosed_0);
            let no_send = pkt.flags / 2 % 2 == 1 || (c.state is PeerClosed
                && c.state->PeerClosed_1);
            &&& d.state == ConnState::PeerClosed(no_recv, no_send)
            &&& no_recv && no_send && c.tx.len() == 0 ==> d.pending.contains(PendingRx::Rst)
            &&& no_recv && no_send && c.tx.len() > 0 && c.state == ConnState::Established
                ==> d.expiry is Some && d.expiry->0 == deadline(now, 2000)
            &&& !(no_recv && no_send) ==> d.expiry == c.expiry && (d.pending.contains(
                PendingRx::Rst,
            ) == c.pending.contains(PendingRx::Rst))
        }),
{
    let f = pkt.flags;
    assert(f & 1 != 0 <==> f % 2 == 1) by (bit_vector);
    assert(f & 2 != 0 <==> f / 2 % 2 == 1) by (bit_vector);
}

/// A guest that asks for the state of the host's buffer is told.
pub proof fn law_credit_is_told(c: ConnView, pkt: VsockPacket, payload: Seq<u8>, now: u64)
    requires
        pkt.op == 7,
        guest_sends(c) || c.state == ConnState::PeerInit,
    ensures
        c.sent(pkt, payload, now).0.pending.contains(PendingRx::CreditUpdate),
        c.sent(pkt, payload, now).0.state == c.state,
{
}

/// Packets that the state of a connection has no use for leave that state.
pub proof fn law_useless_packets_keep_state(
    c: ConnView,
    pkt: VsockPacket,
    payload: Seq<u8>,
    now: u64,
)
    requires
        !(pkt.op == 2 && c.state == ConnState::LocalInit),
        !(pkt.op == 4 && (c.state == ConnState::Established || c.state is PeerClosed)),
    ensures
        c.sent(pkt, payload, now).0.state == c.state,
        c.sent(pkt, payload, now).0.expiry == c.expiry,
{
}

/// What is due to the guest comes in order: a reset, an agreement, a request, data,
/// and the state of the host's buffer. A reset, an agreement, a request and the
/// state are one packet each, which is then no longer due.
pub proof fn law_due_packets_in_order(c: ConnView, max: nat, now: u64)
    ensures
        ({
            let (d, r) = c.received(max, now);
            &&& c.pending.contains(PendingRx::Rst) ==> r is Some && r->Some_0.1.len() == 0
                && is_reply(c, r->Some_0.0, 3, 0, 0) && d.pending == c.pending.remove(PendingRx::Rst)
            &&& !c.pending.contains(PendingRx::Rst) && c.pending.contains(PendingRx::Response)
                ==> r is Some && r->Some_0.1.len() == 0 && is_reply(c, r->Some_0.0, 2, 0, 0)
                && d.state == ConnState::Established && d.pending == c.pending.remove(
                PendingRx::Response,
            )
            &&& !c.pending.contains(PendingRx::Rst) && !c.pending.contains(PendingRx::Response)
                && c.pending.contains(PendingRx::Request) ==> r is Some && r->Some_0.1.len() == 0
                && is_reply(c, r->Some_0.0, 1, 0, 0) && d.expiry is Some && d.expiry->0
                == deadline(now, 2000) && d.pending == c.pending.remove(PendingRx::Request)
            &&& settled(c) && !c.pending.contains(PendingRx::Rw) && c.pending.contains(
                PendingRx::CreditUpdate,
            ) ==> r is Some && r->Some_0.1.len() == 0 && is_reply(c, r->Some_0.0, 6, 0, 0)
                && d.last_fwd_cnt_to_peer == c.fwd_cnt && d.pending == c.pending.remove(
                PendingRx::CreditUpdate,
            )
            &&& settled(c) && !c.pending.contains(PendingRx::Rw) && !c.pending.contains(
                PendingRx::CreditUpdate,
            ) ==> r is None && d == c
            &&& same_ends(c, d)
            &&& d.tx == c.tx
            &&& d.fwd_cnt == c.fwd_cnt
            &&& d.peer_buf_alloc == c.peer_buf_alloc
            &&& d.peer_fwd_cnt == c.peer_fwd_cnt
            &&& d.host_closed == c.host_closed
        }),
{
}

/// Bytes that wait are delivered in one packet: as many as wait, as the guest has
/// room for and as its buffer holds. The rest waits on.
pub proof fn law_bytes_are_delivered(c: ConnView, max: nat, now: u64, n: int)
    requires
        settled(c),
        c.pending.contains(PendingRx::Rw),
        guest_takes(c),
        guest_room(c) > 0,
        max > 0,
        c.rx.len() > 0,
        n <= c.rx.len() && n <= guest_room(c) && n <= max,
        n == c.rx.len() || n == guest_room(c) || n == max,
    ensures
        ({
            let (d, r) = c.received(max, now);
            &&& r is Some
            &&& is_reply(c, r->Some_0.0, 5, n, 0)
            &&& r->Some_0.1 == c.rx.take(n)
            &&& d.rx == c.rx.skip(n)
            &&& d.rx_cnt == (c.rx_cnt + n) % 0x1_0000_0000
            &&& d.last_fwd_cnt_to_peer == c.fwd_cnt
            &&& d.state == c.state
            &&& d.expiry == c.expiry
            &&& c.host_closed ==> d.pending.contains(PendingRx::Rw)
        }),
{
    law_credit_is_room(c);
    assert(c.received(max, now).1->Some_0.1 =~= c.rx.take(n));
}

/// A guest without room is asked for it, and the bytes wait on.
pub proof fn law_room_is_asked_for(c: ConnView, max: nat, now: u64)
    requires
        settled(c),
        c.pending.contains(PendingRx::Rw),
        guest_takes(c),
        guest_room(c) == 0,
    ensures
        ({
            let (d, r) = c.received(max, now);
            &&& r is Some
            &&& is_reply(c, r->Some_0.0, 7, 0, 0)
            &&& r->Some_0.1.len() == 0
            &&& d.rx == c.rx
            &&& d.rx_cnt == c.rx_cnt
            &&& d.pending.contains(PendingRx::Rw)
            &&& d.state == c.state
        }),
{
    law_credit_is_room(c);
}

/// A guest that takes no more bytes is sent a reset in their place.
pub proof fn law_bytes_for_nobody(c: ConnView, max: nat, now: u64)
    requires
        settled(c),
        c.pending.contains(PendingRx::Rw),
        !guest_takes(c),
        c.state != ConnState::LocalInit,
        c.state != ConnState::PeerInit,
    ensures
        ({
            let (d, r) = c.received(max, now);
            &&& r is Some
            &&& is_reply(c, r->Some_0.0, 3, 0, 0)
            &&& r->Some_0.1.len() == 0
            &&& d.rx == c.rx
        }),
{
}

/// Once all bytes of a host that has closed are delivered, the guest is told that
/// the host neither sends nor takes any more, and has two seconds to answer.
pub proof fn law_close_is_told(c: ConnView, max: nat, now: u64)
    requires
        settled(c),
        c.pending.contains(PendingRx::Rw),
        guest_takes(c),
        guest_room(c) > 0,
        c.rx.len() == 0,
        c.host_closed,
    ensures
        ({
            let (d, r) = c.received(max, now);
            &&& r is Some
            &&& is_reply(c, r->Some_0.0, 4, 0, 3)
            &&& r->Some_0.1.len() == 0
            &&& d.state == ConnState::LocalClosed
            &&& d.expiry is Some
            &&& d.expiry->0 == deadline(now, 2000)
        }),
{
    law_credit_is_room(c);
    assert(1u32 | 2u32 == 3u32) by (bit_vector);
}

/// What the host sends stands behind what waits, and is due.
pub proof fn law_host_bytes_wait(c: ConnView, data: Seq<u8>)
    ensures
        c.host_data(data).rx == c.rx + data,
        c.host_data(data).pending == c.pending.insert(PendingRx::Rw),
        c.host_data(data).tx == c.tx,
        c.host_data(data).state == c.state,
        c.host_data(data).rx_cnt == c.rx_cnt,
        c.host_data(data).fwd_cnt == c.fwd_cnt,
        c.host_data(data).peer_buf_alloc == c.peer_buf_alloc,
        c.host_data(data).peer_fwd_cnt == c.peer_fwd_cnt,
        same_ends(c, c.host_data(data)),
        c.host_gone().host_closed,
        c.host_gone().rx == c.rx,
        c.host_gone().tx == c.tx,
        c.host_gone().state == c.state,
        c.host_gone().pending == c.pending.insert(PendingRx::Rw),
        same_ends(c, c.host_gone()),
{
}

/// When the host has read some of the guest's bytes, the others wait on, the bytes
/// read are counted, and the guest is told once fewer than 4 KiB of the host's
/// buffer are known to it as free. A connection that is closed on both sides is
/// reset once all is read.
pub proof fn law_read_bytes_are_counted(c: ConnView, n: nat)
    requires
        n <= c.tx.len() <= 0x1_0000,
    ensures
        ({
            let d = c.flushed(n);
            let known = 0x1_0000 - (d.fwd_cnt - c.last_fwd_cnt_to_peer) % 0x1_0000_0000;
            let over = c.state == ConnState::PeerClosed(true, true) && n == c.tx.len();
            &&& c.tx.take(n as int) + d.tx == c.tx
            &&& d.fwd_cnt == (c.fwd_cnt + n) % 0x1_0000_0000
            &&& d.rx == c.rx
            &&& d.rx_cnt == c.rx_cnt
            &&& d.state == c.state
            &&& d.last_fwd_cnt_to_peer == c.last_fwd_cnt_to_peer
            &&& same_ends(c, d)
            &&& over ==> d.pending == c.pending.insert(PendingRx::Rst)
            &&& !over && known < 0x1000 ==> d.pending == c.pending.insert(PendingRx::CreditUpdate)
            &&& !over && known >= 0x1000 ==> d.pending == c.pending
        }),
{
    assert(c.tx.take(n as int) + c.tx.skip(n as int) =~= c.tx);
}

/// A connection with a deadline has expired from then on, and one without never.
pub proof fn law_deadlines_expire(c: ConnView, now: u64)
    ensures
        c.expired(now) <==> c.expiry is Some && c.expiry->0 <= now,
{
}

} // verus!
