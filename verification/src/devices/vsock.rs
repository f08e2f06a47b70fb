//! The virtio vsock device: sockets between the guest and the host.
//!
//! Its configuration space holds the guest's context ID in eight bytes.

use crate::bytes::{self, le64_vec};
use crate::devices::vsock_conn::{ConnState, ConnView, PendingRx};
use crate::memory::{GuestMemory, MemView, MemoryError};
use crate::transport::{
    self, read_config_space, DeviceType, QueueFault, VirtQueue, VirtioError, VirtqDesc,
};
use vstd::prelude::*;

pub use crate::devices::vsock_conn::{
    VsockConnection, VsockError, VsockOp, VsockPacket, HOST_CID, VSOCK_PKT_HDR_SIZE,
};

verus! {

/// Virtio feature: modern virtio.
pub const VIRTIO_F_VERSION_1: u64 = 0x1_0000_0000;

/// Largest size of each queue.
pub const QUEUE_MAX_SIZE: u16 = 256;

/// Index of the queue from the host to the guest.
pub const RXQ: usize = 0;

/// Index of the queue from the guest to the host.
pub const TXQ: usize = 1;

/// What identifies a connection: its two ports.
#[derive(Debug, Clone, Copy, PartialEq, Eq, Structural)]
pub struct ConnMapKey {
    /// The host's port.
    pub local_port: u32,
    /// The guest's port.
    pub peer_port: u32,
}

/// Tells whether a key is among others.
pub fn contains_key(keys: &[ConnMapKey], key: ConnMapKey) -> (r: bool)
    ensures
        r == keys@.contains(key),
{
    let n: usize = keys.len();
    let mut i: usize = 0;
    while i < n
        invariant
            i <= n,
            n == keys@.len(),
            forall|k: int| 0 <= k < i ==> #[trigger] keys@[k] != key,
        decreases n - i,
    {
        if keys[i] == key {
            assert(keys@[i as int] == key);
            return true;
        }
        i = i + 1;
    }
    false
}

/// A connection with its key, as a model.
pub type Entry = (ConnMapKey, ConnView);

/// Index of the first entry from `i` on with key `key`, or the length.
pub open spec fn find_from(s: Seq<Entry>, key: ConnMapKey, i: int) -> int
    decreases s.len() - i,
{
    if i >= s.len() {
        s.len() as int
    } else if s[i].0 == key {
        i
    } else {
        find_from(s, key, i + 1)
    }
}

/// Whether there is a connection with key `key`.
pub open spec fn has_key(s: Seq<Entry>, key: ConnMapKey) -> bool {
    find_from(s, key, 0) < s.len()
}

/// The connection with key `key`.
pub open spec fn entry_of(s: Seq<Entry>, key: ConnMapKey) -> ConnView {
    s[find_from(s, key, 0)].1
}

/// The entries with `conn` under `key`.
pub open spec fn with_conn(s: Seq<Entry>, key: ConnMapKey, conn: ConnView) -> Seq<Entry> {
    if has_key(s, key) {
        s.update(find_from(s, key, 0), (key, conn))
    } else {
        s.push((key, conn))
    }
}

/// The entries without `key`.
pub open spec fn without_conn(s: Seq<Entry>, key: ConnMapKey) -> Seq<Entry> {
    if has_key(s, key) {
        s.remove(find_from(s, key, 0))
    } else {
        s
    }
}

/// No key occurs twice.
pub open spec fn keys_distinct(s: Seq<Entry>) -> bool {
    forall|i: int, j: int| 0 <= i < j < s.len() ==> (#[trigger] s[i]).0 != (#[trigger] s[j]).0
}

/// What the search for a key finds.
pub proof fn lemma_find(s: Seq<Entry>, key: ConnMapKey, i: int)
    requires
        0 <= i <= s.len(),
    ensures
        i <= find_from(s, key, i) <= s.len(),
        find_from(s, key, i) < s.len() ==> s[find_from(s, key, i)].0 == key,
        forall|k: int| i <= k < find_from(s, key, i) ==> (#[trigger] s[k]).0 != key,
    decreases s.len() - i,
{
    if i < s.len() && s[i].0 != key {
        lemma_find(s, key, i + 1);
    }
}

/// The connections in the order in which they came.
#[derive(Debug)]
pub struct ConnMap {
    keys: Vec<ConnMapKey>,
    conns: Vec<VsockConnection>,
}

impl View for ConnMap {
    type V = Seq<Entry>;

    closed spec fn view(&self) -> Seq<Entry> {
        Seq::new(self.keys@.len(), |i: int| (self.keys@[i], self.conns@[i]@))
    }
}

impl ConnMap {
    /// Every connection has one key, no key occurs twice, and every connection
    /// is well formed.
    pub closed spec fn wf(self) -> bool {
        &&& self.keys@.len() == self.conns@.len()
        &&& forall|i: int, j: int|
            0 <= i < j < self.keys@.len() ==> #[trigger] self.keys@[i] != #[trigger] self.keys@[j]
        &&& forall|i: int| 0 <= i < self.conns@.len() ==> (#[trigger] self.conns@[i]).wf()
    }

    /// No key of well-formed connections occurs twice.
    pub proof fn lemma_distinct(self)
        requires
            self.wf(),
        ensures
            keys_distinct(self@),
    {
    }

    /// No connections.
    pub fn new() -> (r: Self)
        ensures
            r.wf(),
            r@ == Seq::<Entry>::empty(),
    {
        let r = ConnMap { keys: Vec::new(), conns: Vec::new() };
        assert(r@ =~= Seq::<Entry>::empty());
        r
    }

    /// Number of connections.
    pub fn len(&self) -> (r: usize)
        ensures
            r == self@.len(),
    {
        self.keys.len()
    }

    fn position(&self, key: &ConnMapKey) -> (r: usize)
        ensures
            r == find_from(self@, *key, 0),
            r <= self@.len(),
    {
        let n: usize = self.keys.len();
        let mut i: usize = 0;
        while i < n
            invariant
                i <= n,
                n == self@.len(),
                n == self.keys@.len(),
                find_from(self@, *key, 0) == find_from(self@, *key, i as int),
            decreases n - i,
        {
            if self.keys[i] == *key {
                return i;
            }
            i = i + 1;
        }
        n
    }

    /// Whether there is a connection with this key.
    pub fn contains_key(&self, key: &ConnMapKey) -> (r: bool)
        ensures
            r == has_key(self@, *key),
    {
        self.position(key) < self.keys.len()
    }

    /// The connection with this key.
    pub fn get(&self, key: &ConnMapKey) -> (r: Option<&VsockConnection>)
        requires
            self.wf(),
        ensures
            match r {
                Some(c) => has_key(self@, *key) && c@ == entry_of(self@, *key) && c.wf(),
                None => !has_key(self@, *key),
            },
    {
        let i: usize = self.position(key);
        if i < self.keys.len() {
            Some(&self.conns[i])
        } else {
            None
        }
    }

    /// The connection with this key, to be changed.
    pub fn get_mut(&mut self, key: &ConnMapKey) -> (r: Option<&mut VsockConnection>)
        requires
            old(self).wf(),
        ensures
            match r {
                Some(c) => {
                    &&& has_key(old(self)@, *key)
                    &&& c@ == entry_of(old(self)@, *key)
                    &&& c.wf()
                    &&& final(self)@ == old(self)@.update(
                        find_from(old(self)@, *key, 0),
                        (old(self)@[find_from(old(self)@, *key, 0)].0, final(c)@),
                    )
                    &&& final(c).wf() ==> final(self).wf()
                },
                None => !has_key(old(self)@, *key) && final(self)@ == old(self)@ && final(self).wf(),
            },
    {
        let i: usize = self.position(key);
        if i < self.keys.len() {
            Some(self.at_mut(i))
        } else {
            None
        }
    }

    /// The key of connection `i`.
    pub fn key_at(&self, i: usize) -> (r: ConnMapKey)
        requires
            i < self@.len(),
        ensures
            r == self@[i as int].0,
    {
        self.keys[i]
    }

    /// Connection `i`.
    pub fn at(&self, i: usize) -> (r: &VsockConnection)
        requires
            self.wf(),
            i < self@.len(),
        ensures
            r@ == self@[i as int].1,
            r.wf(),
    {
        &self.conns[i]
    }

    /// Connection `i`, to be changed.
    pub fn at_mut(&mut self, i: usize) -> (r: &mut VsockConnection)
        requires
            old(self).wf(),
            i < old(self)@.len(),
        ensures
            r@ == old(self)@[i as int].1,
            r.wf(),
            final(self)@ == old(self)@.update(i as int, (old(self)@[i as int].0, final(r)@)),
            final(r).wf() ==> final(self).wf(),
    {
        &mut self.conns[i]
    }

    /// Puts a connection under a key, in place of one that was there.
    pub fn insert(&mut self, key: ConnMapKey, conn: VsockConnection)
        requires
            old(self).wf(),
            conn.wf(),
        ensures
            final(self).wf(),
            final(self)@ == with_conn(old(self)@, key, conn@),
    {
        let i: usize = self.position(&key);
        proof {
            lemma_find(self@, key, 0);
            assert forall|k: int| 0 <= k < self.keys@.len() && i >= self.keys@.len() implies
                #[trigger] self.keys@[k] != key by {
                assert(self@[k].0 != key);
            }
        }
        if i < self.keys.len() {
            self.conns.set(i, conn);
        } else {
            self.keys.push(key);
            self.conns.push(conn);
        }
        assert(self@ =~= with_conn(old(self)@, key, conn@));
    }

    /// Takes out the connection with this key.
    pub fn remove(&mut self, key: &ConnMapKey) -> (r: Option<VsockConnection>)
        requires
            old(self).wf(),
        ensures
            final(self).wf(),
            final(self)@ == without_conn(old(self)@, *key),
            match r {
                Some(c) => has_key(old(self)@, *key) && c@ == entry_of(old(self)@, *key) && c.wf(),
                None => !has_key(old(self)@, *key),
            },
    {
        let i: usize = self.position(key);
        proof {
            lemma_find(self@, *key, 0);
        }
        if i < self.keys.len() {
            let (_, c) = self.remove_at(i);
            Some(c)
        } else {
            None
        }
    }

    /// Takes out connection `i`.
    pub fn remove_at(&mut self, i: usize) -> (r: (ConnMapKey, VsockConnection))
        requires
            old(self).wf(),
            i < old(self)@.len(),
        ensures
            final(self).wf(),
            final(self)@ == old(self)@.remove(i as int),
            r.0 == old(self)@[i as int].0,
            r.1@ == old(self)@[i as int].1,
            r.1.wf(),
    {
        let k = self.keys.remove(i);
        let c = self.conns.remove(i);
        assert(self@ =~= old(self)@.remove(i as int));
        (k, c)
    }

    /// Drops all connections.
    pub fn clear(&mut self)
        ensures
            final(self).wf(),
            final(self)@ == Seq::<Entry>::empty(),
    {
        self.keys.clear();
        self.conns.clear();
        assert(self@ =~= Seq::<Entry>::empty());
    }
}

impl VsockError {
    /// Whether the error reports this fault.
    pub open spec fn reports(self, f: QueueFault) -> bool {
        match f {
            QueueFault::Memory(e) => self == VsockError::Memory(e),
            QueueFault::Descriptor(d) => self matches VsockError::InvalidDescriptor(s) && s@
                == d.spec_text(),
        }
    }

    /// The error that reports a fault.
    pub fn from_fault(f: QueueFault) -> (r: VsockError)
        ensures
            r.reports(f),
    {
        match f {
            QueueFault::Memory(e) => VsockError::Memory(e),
            QueueFault::Descriptor(d) => VsockError::InvalidDescriptor(d.text()),
        }
    }
}

/// What working on a queue leaves behind.
#[verifier::ext_equal]
pub struct RunView {
    pub mem: MemView,
    pub queue: VirtQueue,
    pub conns: Seq<Entry>,
    /// Whether anything was handled, or what stopped the work.
    pub result: Result<bool, QueueFault>,
}

/// The packet in the chain that starts at `head`: a header of 44 bytes in the
/// first descriptor, and as much of the payload as the second holds. There is
/// none if the chain is malformed.
pub open spec fn tx_packet(m: MemView, q: VirtQueue, head: u16) -> Option<(VsockPacket, Seq<u8>)> {
    match q.desc(m, head) {
        Err(_) => None,
        Ok(hd) => if hd.len < VSOCK_PKT_HDR_SIZE {
            None
        } else {
            match m.read(hd.addr, VSOCK_PKT_HDR_SIZE) {
                Err(_) => None,
                Ok(b) => {
                    let pkt = VsockPacket::parse(b);
                    if !hd.spec_has_next() {
                        Some((pkt, Seq::<u8>::empty()))
                    } else {
                        match q.desc(m, hd.next) {
                            Err(_) => None,
                            Ok(dd) => {
                                let len = if dd.len < pkt.len {
                                    dd.len
                                } else {
                                    pkt.len
                                };
                                if len == 0 {
                                    Some((pkt, Seq::<u8>::empty()))
                                } else {
                                    match m.read(dd.addr, len as usize) {
                                        Err(_) => None,
                                        Ok(payload) => Some((pkt, payload)),
                                    }
                                }
                            },
                        }
                    }
                },
            }
        },
    }
}

/// The key of the connection that a packet of the guest belongs to.
pub open spec fn key_of(pkt: VsockPacket) -> ConnMapKey {
    ConnMapKey { local_port: pkt.dst_port, peer_port: pkt.src_port }
}

/// The connections after a packet of the guest.
pub open spec fn dispatched(
    conns: Seq<Entry>,
    guest_cid: u64,
    pkt: VsockPacket,
    payload: Seq<u8>,
    now: u64,
) -> Seq<Entry> {
    let key = key_of(pkt);
    if pkt.op == VsockOp::Request.spec_code() {
        if has_key(conns, key) {
            conns
        } else {
            conns.push(
                (
                    key,
                    ConnView::fresh(
                        ConnState::PeerInit,
                        HOST_CID,
                        guest_cid,
                        pkt.dst_port,
                        pkt.src_port,
                        pkt.buf_alloc,
                        PendingRx::Response,
                    ),
                ),
            )
        }
    } else if pkt.op == VsockOp::Rst.spec_code() {
        without_conn(conns, key)
    } else if has_key(conns, key) {
        with_conn(conns, key, entry_of(conns, key).sent(pkt, payload, now).0)
    } else {
        conns
    }
}

/// Takes every chain up to `avail` from the transmit queue: hands its packet to
/// the connections and gives the chain back.
pub open spec fn tx_run(
    m: MemView,
    q: VirtQueue,
    conns: Seq<Entry>,
    guest_cid: u64,
    avail: u16,
    processed: bool,
    now: u64,
) -> RunView
    decreases transport::ring_distance(q.last_avail_idx, avail),
{
    if q.last_avail_idx == avail {
        RunView { mem: m, queue: q, conns, result: Ok(processed) }
    } else {
        match q.avail_head(m) {
            Err(e) => RunView { mem: m, queue: q, conns, result: Err(QueueFault::Memory(e)) },
            Ok(head) => {
                let after = match tx_packet(m, q, head) {
                    Some((pkt, payload)) => dispatched(conns, guest_cid, pkt, payload, now),
                    None => conns,
                };
                let (m1, r) = q.put_used(m, head, 0);
                match r {
                    Err(e) => RunView {
                        mem: m1,
                        queue: q,
                        conns: after,
                        result: Err(QueueFault::Memory(e)),
                    },
                    Ok(_) => tx_run(m1, q.advanced(), after, guest_cid, avail, true, now),
                }
            },
        }
    }
}

/// Shows the driver how far the used ring is filled, if anything was handled.
pub open spec fn published(r: RunView) -> RunView {
    match r.result {
        Ok(true) => {
            let (m, w) = r.queue.put_used_idx(r.mem);
            match w {
                Ok(_) => RunView { mem: m, ..r },
                Err(e) => RunView { mem: m, result: Err(QueueFault::Memory(e)), ..r },
            }
        },
        _ => r,
    }
}

/// Handles all that waits in the transmit queue.
pub open spec fn tx_processed(
    m: MemView,
    q: VirtQueue,
    conns: Seq<Entry>,
    guest_cid: u64,
    now: u64,
) -> RunView {
    if !q.usable() {
        RunView { mem: m, queue: q, conns, result: Ok(false) }
    } else {
        match q.avail_idx(m) {
            Err(e) => RunView { mem: m, queue: q, conns, result: Err(QueueFault::Memory(e)) },
            Ok(avail) => published(tx_run(m, q, conns, guest_cid, avail, false, now)),
        }
    }
}

/// Where the payload of a received packet goes, and how much of it fits.
pub struct RxSlot {
    pub header: VirtqDesc,
    pub payload_addr: Option<u64>,
    pub max: u32,
}

/// The room in the chain that starts at `head`: the second descriptor, or what
/// the first has left behind the header.
#[verifier::opaque]
pub open spec fn rx_slot(m: MemView, q: VirtQueue, head: u16) -> Result<RxSlot, QueueFault> {
    match q.desc(m, head) {
        Err(f) => Err(f),
        Ok(hd) => if hd.spec_has_next() {
            match q.desc(m, hd.next) {
                Err(f) => Err(f),
                Ok(dd) => Ok(
                    RxSlot { header: hd, payload_addr: Some(dd.addr), max: dd.len },
                ),
            }
        } else if hd.len <= VSOCK_PKT_HDR_SIZE {
            Ok(RxSlot { header: hd, payload_addr: None, max: 0 })
        } else {
            Ok(
                RxSlot {
                    header: hd,
                    payload_addr: Some(transport::addr_plus(hd.addr, 44)),
                    max: (hd.len - 44) as u32,
                },
            )
        },
    }
}

/// Whether any connection has something to tell the guest.
pub open spec fn any_pending(conns: Seq<Entry>) -> bool {
    exists|i: int|
        0 <= i < conns.len() && (#[trigger] conns[i]).1.pending != Set::<PendingRx>::empty()
}

/// Asks the connections from `i` on, one after the other, for a packet. Leaves
/// the connections, and which one gave which packet.
pub open spec fn rx_pick(conns: Seq<Entry>, i: int, max: nat, now: u64) -> (
    Seq<Entry>,
    Option<(int, VsockPacket, Seq<u8>)>,
)
    decreases conns.len() - i,
{
    if i >= conns.len() || i < 0 {
        (conns, None)
    } else if conns[i].1.pending == Set::<PendingRx>::empty() {
        rx_pick(conns, i + 1, max, now)
    } else {
        let (c, p) = conns[i].1.received(max, now);
        let after = conns.update(i, (conns[i].0, c));
        match p {
            Some((pkt, payload)) => (after, Some((i, pkt, payload))),
            None => rx_pick(after, i + 1, max, now),
        }
    }
}

/// How many bytes a packet with this payload takes, as the used ring says it.
pub open spec fn rx_written(payload: Seq<u8>) -> u32 {
    if 44 + payload.len() > u32::MAX {
        u32::MAX
    } else {
        (44 + payload.len()) as u32
    }
}

/// Stores a packet into a chain and gives the chain back.
#[verifier::opaque]
pub open spec fn rx_store(
    m: MemView,
    q: VirtQueue,
    head: u16,
    slot: RxSlot,
    pkt: VsockPacket,
    payload: Seq<u8>,
) -> (MemView, Result<(), MemoryError>) {
    let (m1, r1) = if slot.header.len >= VSOCK_PKT_HDR_SIZE {
        m.write(slot.header.addr, pkt.serialized())
    } else {
        (m, Ok(()))
    };
    match r1 {
        Err(e) => (m1, Err(e)),
        Ok(_) => {
            let (m2, r2) = if payload.len() > 0 && slot.payload_addr is Some {
                m1.write(slot.payload_addr->Some_0, payload)
            } else {
                (m1, Ok(()))
            };
            match r2 {
                Err(e) => (m2, Err(e)),
                Ok(_) => q.put_used(m2, head, rx_written(payload)),
            }
        },
    }
}

/// Fills the chains up to `avail` of the receive queue with packets, as long as
/// a connection has one. A connection that was reset is gone afterwards.
pub open spec fn rx_run(
    m: MemView,
    q: VirtQueue,
    conns: Seq<Entry>,
    avail: u16,
    processed: bool,
    now: u64,
) -> RunView
    decreases transport::ring_distance(q.last_avail_idx, avail),
{
    if q.last_avail_idx == avail || !any_pending(conns) {
        RunView { mem: m, queue: q, conns, result: Ok(processed) }
    } else {
        match q.avail_head(m) {
            Err(e) => RunView { mem: m, queue: q, conns, result: Err(QueueFault::Memory(e)) },
            Ok(head) => match rx_slot(m, q, head) {
                Err(f) => RunView { mem: m, queue: q, conns, result: Err(f) },
                Ok(slot) => {
                    let (asked, pick) = rx_pick(conns, 0, slot.max as nat, now);
                    match pick {
                        None => RunView { mem: m, queue: q, conns: asked, result: Ok(processed) },
                        Some((i, pkt, payload)) => {
                            let (m1, r) = rx_store(m, q, head, slot, pkt, payload);
                            match r {
                                Err(e) => RunView {
                                    mem: m1,
                                    queue: q,
                                    conns: asked,
                                    result: Err(QueueFault::Memory(e)),
                                },
                                Ok(_) => rx_run(
                                    m1,
                                    q.advanced(),
                                    if pkt.op == VsockOp::Rst.spec_code() {
                                        asked.remove(i)
                                    } else {
                                        asked
                                    },
                                    avail,
                                    true,
                                    now,
                                ),
                            }
                        },
                    }
                },
            },
        }
    }
}

/// Fills the receive queue as far as the connections have packets.
pub open spec fn rx_processed(m: MemView, q: VirtQueue, conns: Seq<Entry>, now: u64) -> RunView {
    if !q.usable() {
        RunView { mem: m, queue: q, conns, result: Ok(false) }
    } else {
        match q.avail_idx(m) {
            Err(e) => RunView { mem: m, queue: q, conns, result: Err(QueueFault::Memory(e)) },
            Ok(avail) => published(rx_run(m, q, conns, avail, false, now)),
        }
    }
}

/// What a vsock device is.
#[verifier::ext_equal]
pub struct VsockView {
    pub guest_cid: u64,
    pub acked_features: u64,
    pub queues: Seq<VirtQueue>,
    pub activated: bool,
    pub conns: Seq<Entry>,
    /// Whether the guest sent something since the last look.
    pub tx_ready: bool,
}

/// The result of a run as the transport sees it: faults count as nothing done.
pub open spec fn done(r: Result<bool, QueueFault>) -> bool {
    match r {
        Ok(b) => b,
        Err(_) => false,
    }
}

impl VsockView {
    /// The device and the memory after the receive queue was filled, and
    /// whether anything was delivered.
    pub open spec fn filled(self, m: MemView, now: u64) -> (VsockView, MemView, bool) {
        let r = rx_processed(m, self.queues[RXQ as int], self.conns, now);
        (
            VsockView {
                conns: r.conns,
                queues: self.queues.update(
                    RXQ as int,
                    self.queues[RXQ as int].with_positions(r.queue),
                ),
                ..self
            },
            r.mem,
            done(r.result),
        )
    }

    /// The device and the memory after the transmit queue was emptied, and
    /// whether anything was taken.
    pub open spec fn emptied(self, m: MemView, now: u64) -> (VsockView, MemView, bool) {
        let r = tx_processed(m, self.queues[TXQ as int], self.conns, self.guest_cid, now);
        (
            VsockView {
                conns: r.conns,
                queues: self.queues.update(
                    TXQ as int,
                    self.queues[TXQ as int].with_positions(r.queue),
                ),
                ..self
            },
            r.mem,
            done(r.result),
        )
    }

    /// The device and the memory after the driver notified queue `idx`, and
    /// whether anything was done.
    pub open spec fn notified(self, idx: usize, m: MemView, now: u64) -> (
        VsockView,
        MemView,
        bool,
    ) {
        if idx == TXQ {
            let (d1, m1, tx) = self.emptied(m, now);
            let (d2, m2, rx) = d1.filled(m1, now);
            (VsockView { tx_ready: d2.tx_ready || tx, ..d2 }, m2, tx || rx)
        } else if idx == RXQ {
            self.filled(m, now)
        } else {
            (self, m, false)
        }
    }
}

/// The virtio vsock device.
#[derive(Debug)]
pub struct VsockDevice {
    guest_cid: u64,
    acked_features: u64,
    queues: [VirtQueue; 3],
    activated: bool,
    connections: ConnMap,
    tx_ready: bool,
}

impl View for VsockDevice {
    type V = VsockView;

    closed spec fn view(&self) -> VsockView {
        VsockView {
            guest_cid: self.guest_cid,
            acked_features: self.acked_features,
            queues: self.queues@,
            activated: self.activated,
            conns: self.connections@,
            tx_ready: self.tx_ready,
        }
    }
}

impl VsockDevice {
    pub closed spec fn wf(self) -> bool {
        self.connections.wf()
    }

    /// No key of a well-formed device's connections occurs twice.
    pub proof fn lemma_keys_distinct(self)
        requires
            self.wf(),
        ensures
            keys_distinct(self@.conns),
    {
        self.connections.lemma_distinct();
    }

    /// Creates a device without connections for the guest with this context ID.
    pub fn new(guest_cid: u64) -> (r: Self)
        ensures
            r.wf(),
            r@ == (VsockView {
                guest_cid,
                acked_features: 0,
                queues: Seq::new(3, |i: int| VirtQueue::spec_new(QUEUE_MAX_SIZE)),
                activated: false,
                conns: Seq::empty(),
                tx_ready: false,
            }),
    {
        let q = VirtQueue::new(QUEUE_MAX_SIZE);
        let r = VsockDevice {
            guest_cid,
            acked_features: 0,
            queues: [q, q, q],
            activated: false,
            connections: ConnMap::new(),
            tx_ready: false,
        };
        assert(r.queues@ =~= Seq::new(3, |i: int| VirtQueue::spec_new(QUEUE_MAX_SIZE)));
        r
    }

    /// Whether the guest sent something since this was last asked.
    pub fn tx_notify(&mut self) -> (r: bool)
        requires
            old(self).wf(),
        ensures
            final(self).wf(),
            r == old(self)@.tx_ready,
            final(self)@ == (VsockView { tx_ready: false, ..old(self)@ }),
    {
        let r = self.tx_ready;
        self.tx_ready = false;
        r
    }

    /// The guest's context ID.
    pub fn guest_cid(&self) -> (r: u64)
        ensures
            r == self@.guest_cid,
    {
        self.guest_cid
    }

    /// The connections.
    pub fn connections(&self) -> (r: &ConnMap)
        requires
            self.wf(),
        ensures
            r@ == self@.conns,
            r.wf(),
    {
        &self.connections
    }

    /// The connections, to be changed.
    pub fn connections_mut(&mut self) -> (r: &mut ConnMap)
        requires
            old(self).wf(),
        ensures
            r@ == old(self)@.conns,
            r.wf(),
            final(self)@ == (VsockView { conns: final(r)@, ..old(self)@ }),
            final(r).wf() ==> final(self).wf(),
    {
        &mut self.connections
    }

    /// Adds a connection.
    pub fn add_connection(&mut self, key: ConnMapKey, conn: VsockConnection)
        requires
            old(self).wf(),
            conn.wf(),
        ensures
            final(self).wf(),
            final(self)@ == (VsockView {
                conns: with_conn(old(self)@.conns, key, conn@),
                ..old(self)@
            }),
    {
        self.connections.insert(key, conn);
    }

    /// Takes a connection out.
    pub fn remove_connection(&mut self, key: &ConnMapKey) -> (r: Option<VsockConnection>)
        requires
            old(self).wf(),
        ensures
            final(self).wf(),
            final(self)@ == (VsockView {
                conns: without_conn(old(self)@.conns, *key),
                ..old(self)@
            }),
            match r {
                Some(c) => has_key(old(self)@.conns, *key) && c.wf() && c@ == entry_of(
                    old(self)@.conns,
                    *key,
                ),
                None => !has_key(old(self)@.conns, *key),
            },
    {
        self.connections.remove(key)
    }

    /// Drops the connections whose time is over at `now`.
    pub fn expire_connections(&mut self, now: u64)
        requires
            old(self).wf(),
        ensures
            final(self).wf(),
            final(self)@ == (VsockView {
                conns: old(self)@.conns.filter(|e: Entry| !e.1.expired(now)),
                ..old(self)@
            }),
    {
        let ghost keep = |e: Entry| !e.1.expired(now);
        let mut i: usize = 0;
        while i < self.connections.len()
            invariant
                self.wf(),
                i <= self@.conns.len(),
                keep == (|e: Entry| !e.1.expired(now)),
                self@ == (VsockView { conns: self@.conns, ..old(self)@ }),
                self@.conns.subrange(0, i as int).filter(keep) == self@.conns.subrange(0, i as int),
                self@.conns.filter(keep) == old(self)@.conns.filter(keep),
            decreases self@.conns.len() - i,
        {
            let ghost s = self@.conns;
            let ghost n = i as int;
            if self.connections.at(i).has_expired(now) {
                proof {
                    lemma_filter_drops(s, n, keep);
                    assert(s.remove(n).subrange(0, n) =~= s.subrange(0, n));
                }
                let _ = self.connections.remove_at(i);
            } else {
                proof {
                    let t = s.subrange(0, n + 1);
                    assert(t.drop_last() =~= s.subrange(0, n));
                    reveal(Seq::filter);
                    assert(s.subrange(0, n).push(s[n]) =~= t);
                }
                i = i + 1;
            }
        }
        assert(self@.conns.subrange(0, i as int) =~= self@.conns);
    }

    /// Drops the connections with these keys.
    pub fn remove_connections(&mut self, keys: &[ConnMapKey])
        requires
            old(self).wf(),
        ensures
            final(self).wf(),
            final(self)@ == (VsockView {
                conns: old(self)@.conns.filter(|e: Entry| !keys@.contains(e.0)),
                ..old(self)@
            }),
    {
        let ghost keep = |e: Entry| !keys@.contains(e.0);
        let mut i: usize = 0;
        while i < self.connections.len()
            invariant
                self.wf(),
                i <= self@.conns.len(),
                keep == (|e: Entry| !keys@.contains(e.0)),
                self@ == (VsockView { conns: self@.conns, ..old(self)@ }),
                self@.conns.subrange(0, i as int).filter(keep) == self@.conns.subrange(0, i as int),
                self@.conns.filter(keep) == old(self)@.conns.filter(keep),
            decreases self@.conns.len() - i,
        {
            let ghost s = self@.conns;
            let ghost n = i as int;
            if contains_key(keys, self.connections.key_at(i)) {
                proof {
                    lemma_filter_drops(s, n, keep);
                    assert(s.remove(n).subrange(0, n) =~= s.subrange(0, n));
                }
                let _ = self.connections.remove_at(i);
            } else {
                proof {
                    let t = s.subrange(0, n + 1);
                    assert(t.drop_last() =~= s.subrange(0, n));
                    reveal(Seq::filter);
                    assert(s.subrange(0, n).push(s[n]) =~= t);
                }
                i = i + 1;
            }
        }
        assert(self@.conns.subrange(0, i as int) =~= self@.conns);
    }
}

/// Taking out an element that a filter drops does not change what it keeps.
proof fn lemma_filter_drops(s: Seq<Entry>, n: int, keep: spec_fn(Entry) -> bool)
    requires
        0 <= n < s.len(),
        !keep(s[n]),
    ensures
        s.remove(n).filter(keep) == s.filter(keep),
    decreases s.len(),
{
    reveal(Seq::filter);
    if n == s.len() - 1 {
        assert(s.remove(n) =~= s.drop_last());
    } else {
        lemma_filter_drops(s.drop_last(), n, keep);
        assert(s.remove(n).drop_last() =~= s.drop_last().remove(n));
        assert(s.remove(n).last() == s.last());
    }
}

impl VsockDevice {
    /// Hands the packet in the chain that starts at `head_idx` to the connections.
    fn handle_tx_chain(&mut self, memory: &GuestMemory, queue: &VirtQueue, head_idx: u16, now: u64)
        requires
            old(self).wf(),
        ensures
            final(self).wf(),
            final(self)@ == (VsockView {
                conns: match tx_packet(memory@, *queue, head_idx) {
                    Some((pkt, payload)) => dispatched(
                        old(self)@.conns,
                        old(self)@.guest_cid,
                        pkt,
                        payload,
                        now,
                    ),
                    None => old(self)@.conns,
                },
                ..old(self)@
            }),
    {
        let header = match queue.read_desc(memory, head_idx) {
            Ok(d) => d,
            Err(_) => return ,
        };
        if (header.len as usize) < VSOCK_PKT_HDR_SIZE {
            return ;
        }
        let hdr_bytes = match memory.read_bytes(header.addr, VSOCK_PKT_HDR_SIZE) {
            Ok(v) => v,
            Err(_) => return ,
        };
        let pkt = match VsockPacket::from_bytes(hdr_bytes.as_slice()) {
            Some(p) => p,
            None => return ,
        };
        let mut payload: Vec<u8> = Vec::new();
        if header.has_next() {
            let data = match queue.read_desc(memory, header.next) {
                Ok(d) => d,
                Err(_) => return ,
            };
            let len: usize = if data.len < pkt.len {
                data.len as usize
            } else {
                pkt.len as usize
            };
            if len > 0 {
                payload = match memory.read_bytes(data.addr, len) {
                    Ok(v) => v,
                    Err(_) => return ,
                };
            }
        }
        assert(tx_packet(memory@, *queue, head_idx) == Some((pkt, payload@)));
        self.dispatch(&pkt, payload.as_slice(), now);
    }

    /// Hands a packet of the guest to the connections.
    fn dispatch(&mut self, pkt: &VsockPacket, payload: &[u8], now: u64)
        requires
            old(self).wf(),
        ensures
            final(self).wf(),
            final(self)@ == (VsockView {
                conns: dispatched(
                    old(self)@.conns,
                    old(self)@.guest_cid,
                    *pkt,
                    payload@,
                    now,
                ),
                ..old(self)@
            }),
    {
        let key = ConnMapKey { local_port: pkt.dst_port, peer_port: pkt.src_port };
        let i: usize = self.connections.position(&key);
        let known = i < self.connections.len();
        proof {
            lemma_find(self.connections@, key, 0);
        }
        if pkt.op == VsockOp::Request.code() {
            if !known {
                let conn = VsockConnection::new_peer_init(
                    HOST_CID,
                    self.guest_cid,
                    pkt.dst_port,
                    pkt.src_port,
                    pkt.buf_alloc,
                );
                self.connections.insert(key, conn);
            }
        } else if pkt.op == VsockOp::Rst.code() {
            let _ = self.connections.remove(&key);
        } else if known {
            let _ = self.connections.at_mut(i).send_pkt(pkt, payload, now);
        }
    }

    /// Takes all that waits in the transmit queue.
    fn process_tx_queue_inner(
        &mut self,
        memory: &mut GuestMemory,
        queue: &mut VirtQueue,
        now: u64,
    ) -> (r: Result<bool, VsockError>)
        requires
            old(self).wf(),
        ensures
            final(self).wf(),
            ({
                let run = tx_processed(
                    old(memory)@,
                    *old(queue),
                    old(self)@.conns,
                    old(self)@.guest_cid,
                    now,
                );
                &&& final(self)@ == (VsockView { conns: run.conns, ..old(self)@ })
                &&& final(memory)@ == run.mem
                &&& *final(queue) == run.queue
                &&& match r {
                    Ok(b) => run.result == Ok::<bool, QueueFault>(b),
                    Err(e) => run.result is Err && e.reports(run.result->Err_0),
                }
            }),
    {
        if !queue.is_usable() {
            return Ok(false);
        }
        let avail: u16 = match queue.read_avail_idx(memory) {
            Ok(v) => v,
            Err(e) => return Err(VsockError::from_fault(QueueFault::Memory(e))),
        };
        let mut processed = false;
        let ghost goal = tx_run(
            memory@,
            *queue,
            self@.conns,
            self@.guest_cid,
            avail,
            false,
            now,
        );
        while queue.last_avail_idx != avail
            invariant
                self.wf(),
                queue.size != 0,
                self@ == (VsockView { conns: self@.conns, ..old(self)@ }),
                goal == tx_run(
                    memory@,
                    *queue,
                    self@.conns,
                    self@.guest_cid,
                    avail,
                    processed,
                    now,
                ),
                goal == tx_run(
                    old(memory)@,
                    *old(queue),
                    old(self)@.conns,
                    old(self)@.guest_cid,
                    avail,
                    false,
                    now,
                ),
                old(queue).usable(),
                old(queue).avail_idx(old(memory)@) == Ok::<u16, MemoryError>(avail),
            decreases transport::ring_distance(queue.last_avail_idx, avail),
        {
            proof {
                transport::lemma_ring_step(queue.last_avail_idx, avail);
            }
            let head: u16 = match queue.read_avail_head(memory) {
                Ok(v) => v,
                Err(e) => return Err(VsockError::from_fault(QueueFault::Memory(e))),
            };
            self.handle_tx_chain(memory, queue, head, now);
            match queue.write_used(memory, head, 0) {
                Ok(_) => {},
                Err(e) => return Err(VsockError::from_fault(QueueFault::Memory(e))),
            }
            queue.advance();
            processed = true;
        }
        if processed {
            match queue.write_used_idx(memory) {
                Ok(_) => {},
                Err(e) => return Err(VsockError::from_fault(QueueFault::Memory(e))),
            }
        }
        Ok(processed)
    }

    /// Whether any connection has something to tell the guest.
    pub fn any_pending_rx(&self) -> (r: bool)
        requires
            self.wf(),
        ensures
            r == any_pending(self@.conns),
    {
        let n: usize = self.connections.len();
        let mut i: usize = 0;
        while i < n
            invariant
                self.wf(),
                n == self@.conns.len(),
                i <= n,
                forall|k: int|
                    0 <= k < i ==> (#[trigger] self@.conns[k]).1.pending == Set::<
                        PendingRx,
                    >::empty(),
            decreases n - i,
        {
            if self.connections.at(i).has_pending_rx() {
                assert(self@.conns[i as int].1.pending != Set::<PendingRx>::empty());
                return true;
            }
            i = i + 1;
        }
        false
    }

    /// Asks the connections in turn for a packet of at most `max` bytes.
    fn pick_packet(&mut self, max: usize, now: u64) -> (r: Option<(usize, VsockPacket, Vec<u8>)>)
        requires
            old(self).wf(),
        ensures
            final(self).wf(),
            final(self)@ == (VsockView {
                conns: rx_pick(old(self)@.conns, 0, max as nat, now).0,
                ..old(self)@
            }),
            match r {
                Some((i, pkt, payload)) => i < final(self)@.conns.len() && payload@.len() <= max
                    && rx_pick(old(self)@.conns, 0, max as nat, now).1 == Some(
                    (i as int, pkt, payload@),
                ),
                None => rx_pick(old(self)@.conns, 0, max as nat, now).1 is None,
            },
    {
        let n: usize = self.connections.len();
        let mut i: usize = 0;
        while i < n
            invariant
                self.wf(),
                n == self@.conns.len(),
                i <= n,
                self@ == (VsockView { conns: self@.conns, ..old(self)@ }),
                rx_pick(self@.conns, i as int, max as nat, now) == rx_pick(
                    old(self)@.conns,
                    0,
                    max as nat,
                    now,
                ),
            decreases n - i,
        {
            if self.connections.at(i).has_pending_rx() {
                proof {
                    crate::devices::vsock_conn::law_credit_is_kept(
                        self@.conns[i as int].1,
                        max as nat,
                        now,
                    );
                }
                match self.connections.at_mut(i).recv_pkt(max, now) {
                    Ok((pkt, payload)) => return Some((i, pkt, payload)),
                    Err(_) => {},
                }
            }
            i = i + 1;
        }
        None
    }

    /// Reads what room the chain that starts at `head` has for a packet.
    fn read_rx_slot(memory: &GuestMemory, queue: &VirtQueue, head: u16) -> (r: Result<
        RxSlot,
        QueueFault,
    >)
        ensures
            r == rx_slot(memory@, *queue, head),
    {
        proof {
            reveal(rx_slot);
        }
        let header = match queue.read_desc(memory, head) {
            Ok(d) => d,
            Err(f) => return Err(f),
        };
        if header.has_next() {
            return match queue.read_desc(memory, header.next) {
                Ok(d) => Ok(RxSlot { header, payload_addr: Some(d.addr), max: d.len }),
                Err(f) => Err(f),
            };
        }
        if header.len as usize <= VSOCK_PKT_HDR_SIZE {
            return Ok(RxSlot { header, payload_addr: None, max: 0 });
        }
        Ok(
            RxSlot {
                header,
                payload_addr: Some(header.addr.saturating_add(44)),
                max: header.len - 44,
            },
        )
    }

    /// Stores a packet into a chain and gives the chain back.
    fn store_packet(
        memory: &mut GuestMemory,
        queue: &VirtQueue,
        head: u16,
        slot: &RxSlot,
        pkt: &VsockPacket,
        payload: &[u8],
    ) -> (r: Result<(), MemoryError>)
        requires
            queue.size != 0,
            payload@.len() <= u32::MAX,
        ensures
            (final(memory)@, r) == rx_store(old(memory)@, *queue, head, *slot, *pkt, payload@),
    {
        proof {
            reveal(rx_store);
        }
        if slot.header.len as usize >= VSOCK_PKT_HDR_SIZE {
            match memory.write_bytes(slot.header.addr, pkt.to_bytes().as_slice()) {
                Ok(_) => {},
                Err(e) => return Err(e),
            }
        }
        let n: usize = payload.len();
        if n > 0 {
            match slot.payload_addr {
                Some(addr) => match memory.write_bytes(addr, payload) {
                    Ok(_) => {},
                    Err(e) => return Err(e),
                },
                None => {},
            }
        }
        let written: u32 = (n as u32).saturating_add(44);
        queue.write_used(memory, head, written)
    }

    /// Fills the receive queue as far as the connections have packets.
    fn process_rx_queue_inner(
        &mut self,
        memory: &mut GuestMemory,
        queue: &mut VirtQueue,
        now: u64,
    ) -> (r: Result<bool, VsockError>)
        requires
            old(self).wf(),
        ensures
            final(self).wf(),
            ({
                let run = rx_processed(old(memory)@, *old(queue), old(self)@.conns, now);
                &&& final(self)@ == (VsockView { conns: run.conns, ..old(self)@ })
                &&& final(memory)@ == run.mem
                &&& *final(queue) == run.queue
                &&& match r {
                    Ok(b) => run.result == Ok::<bool, QueueFault>(b),
                    Err(e) => run.result is Err && e.reports(run.result->Err_0),
                }
            }),
    {
        if !queue.is_usable() {
            return Ok(false);
        }
        let avail: u16 = match queue.read_avail_idx(memory) {
            Ok(v) => v,
            Err(e) => return Err(VsockError::from_fault(QueueFault::Memory(e))),
        };
        let mut processed = false;
        let ghost goal = rx_run(memory@, *queue, self@.conns, avail, false, now);
        while queue.last_avail_idx != avail
            invariant_except_break
                self.wf(),
                queue.size != 0,
                self@ == (VsockView { conns: self@.conns, ..old(self)@ }),
                goal == rx_run(memory@, *queue, self@.conns, avail, processed, now),
                goal == rx_run(old(memory)@, *old(queue), old(self)@.conns, avail, false, now),
                old(queue).usable(),
                old(queue).avail_idx(old(memory)@) == Ok::<u16, MemoryError>(avail),
            ensures
                self.wf(),
                self@ == (VsockView { conns: goal.conns, ..old(self)@ }),
                memory@ == goal.mem,
                *queue == goal.queue,
                goal.result == Ok::<bool, QueueFault>(processed),
                goal == rx_run(old(memory)@, *old(queue), old(self)@.conns, avail, false, now),
                old(queue).usable(),
                old(queue).avail_idx(old(memory)@) == Ok::<u16, MemoryError>(avail),
            decreases transport::ring_distance(queue.last_avail_idx, avail),
        {
            proof {
                transport::lemma_ring_step(queue.last_avail_idx, avail);
            }
            if !self.any_pending_rx() {
                break ;
            }
            let head: u16 = match queue.read_avail_head(memory) {
                Ok(v) => v,
                Err(e) => return Err(VsockError::from_fault(QueueFault::Memory(e))),
            };
            let slot = match Self::read_rx_slot(memory, queue, head) {
                Ok(s) => s,
                Err(f) => return Err(VsockError::from_fault(f)),
            };
            match self.pick_packet(slot.max as usize, now) {
                None => {
                    break ;
                },
                Some((i, pkt, payload)) => {
                    match Self::store_packet(memory, queue, head, &slot, &pkt, payload.as_slice()) {
                        Ok(_) => {},
                        Err(e) => return Err(VsockError::from_fault(QueueFault::Memory(e))),
                    }
                    queue.advance();
                    processed = true;
                    if pkt.op == VsockOp::Rst.code() {
                        let _ = self.connections.remove_at(i);
                    }
                },
            }
        }
        if processed {
            match queue.write_used_idx(memory) {
                Ok(_) => {},
                Err(e) => return Err(VsockError::from_fault(QueueFault::Memory(e))),
            }
        }
        Ok(processed)
    }

    fn fill_rx(&mut self, memory: &mut GuestMemory, now: u64) -> (r: bool)
        requires
            old(self).wf(),
        ensures
            final(self).wf(),
            (final(self)@, final(memory)@, r) == old(self)@.filled(old(memory)@, now),
    {
        let mut queue = self.queues[RXQ];
        let result = self.process_rx_queue_inner(memory, &mut queue, now);
        let mut q = self.queues[RXQ];
        q.last_avail_idx = queue.last_avail_idx;
        q.last_used_idx = queue.last_used_idx;
        self.queues[RXQ] = q;
        match result {
            Ok(b) => b,
            Err(_) => false,
        }
    }

    fn empty_tx(&mut self, memory: &mut GuestMemory, now: u64) -> (r: bool)
        requires
            old(self).wf(),
        ensures
            final(self).wf(),
            (final(self)@, final(memory)@, r) == old(self)@.emptied(old(memory)@, now),
    {
        let mut queue = self.queues[TXQ];
        let result = self.process_tx_queue_inner(memory, &mut queue, now);
        let mut q = self.queues[TXQ];
        q.last_avail_idx = queue.last_avail_idx;
        q.last_used_idx = queue.last_used_idx;
        self.queues[TXQ] = q;
        match result {
            Ok(b) => b,
            Err(_) => false,
        }
    }

    /// Handles a notification of queue `queue_idx`, and says whether anything
    /// was done. Emptying the transmit queue also fills the receive queue,
    /// because the guest's packets may have answers.
    pub fn process_queue(&mut self, queue_idx: usize, memory: &mut GuestMemory, now: u64) -> (r:
        Result<bool, VirtioError>)
        requires
            old(self).wf(),
        ensures
            final(self).wf(),
            r is Ok,
            (final(self)@, final(memory)@, r->Ok_0) == old(self)@.notified(
                queue_idx,
                old(memory)@,
                now,
            ),
    {
        if queue_idx == TXQ {
            let tx = self.empty_tx(memory, now);
            let rx = self.fill_rx(memory, now);
            if tx {
                self.tx_ready = true;
            }
            Ok(tx || rx)
        } else if queue_idx == RXQ {
            Ok(self.fill_rx(memory, now))
        } else {
            Ok(false)
        }
    }

    /// The kind of the device.
    pub fn device_type(&self) -> (r: DeviceType)
        ensures
            r == DeviceType::Vsock,
    {
        DeviceType::Vsock
    }

    /// The features that the device offers.
    pub fn avail_features(&self) -> (r: u64)
        ensures
            r == VIRTIO_F_VERSION_1,
    {
        VIRTIO_F_VERSION_1
    }

    /// The features that the driver accepted.
    pub fn acked_features(&self) -> (r: u64)
        ensures
            r == self@.acked_features,
    {
        self.acked_features
    }

    /// Notes the features that the driver accepted.
    pub fn set_acked_features(&mut self, features: u64)
        requires
            old(self).wf(),
        ensures
            final(self).wf(),
            final(self)@ == (VsockView { acked_features: features, ..old(self)@ }),
    {
        self.acked_features = features;
    }

    /// The queues: receive, transmit, events.
    pub fn queues(&self) -> (r: &[VirtQueue; 3])
        ensures
            r@ == self@.queues,
    {
        &self.queues
    }

    /// The queues, to be configured.
    pub fn queues_mut(&mut self) -> (r: &mut [VirtQueue; 3])
        requires
            old(self).wf(),
        ensures
            r@ == old(self)@.queues,
            final(self)@ == (VsockView { queues: final(r)@, ..old(self)@ }),
            final(self).wf(),
    {
        &mut self.queues
    }

    /// Reads the configuration space: the guest's context ID.
    pub fn read_config(&self, offset: u64, data: &mut [u8])
        ensures
            final(data)@ == Seq::new(
                old(data)@.len(),
                |i: int| transport::config_byte(bytes::le64_bytes(self@.guest_cid), offset + i),
            ),
    {
        read_config_space(le64_vec(self.guest_cid).as_slice(), offset, data);
    }

    /// Does nothing: the configuration space is read-only.
    pub fn write_config(&mut self, _offset: u64, _data: &[u8])
        requires
            old(self).wf(),
        ensures
            *final(self) == *old(self),
    {
    }

    /// Notes that the driver is ready.
    pub fn activate(&mut self) -> (r: Result<(), VirtioError>)
        requires
            old(self).wf(),
        ensures
            final(self).wf(),
            r == Ok::<(), VirtioError>(()),
            final(self)@ == (VsockView { activated: true, ..old(self)@ }),
    {
        self.activated = true;
        Ok(())
    }

    /// Whether the driver is ready.
    pub fn is_activated(&self) -> (r: bool)
        ensures
            r == self@.activated,
    {
        self.activated
    }

    /// Resets the device. A driver resets the device before it sets it up:
    /// connections that the host opened before that are kept.
    pub fn reset(&mut self)
        requires
            old(self).wf(),
        ensures
            final(self).wf(),
            final(self)@ == (VsockView {
                activated: false,
                conns: if old(self)@.activated {
                    Seq::empty()
                } else {
                    old(self)@.conns
                },
                queues: Seq::new(3, |i: int| VirtQueue::spec_new(old(self)@.queues[i].max_size)),
                ..old(self)@
            }),
    {
        if self.activated {
            self.connections.clear();
        }
        self.activated = false;
        self.queues = [
            VirtQueue::new(self.queues[0].max_size),
            VirtQueue::new(self.queues[1].max_size),
            VirtQueue::new(self.queues[2].max_size),
        ];
        assert(self.queues@ =~= Seq::new(
            3,
            |i: int| VirtQueue::spec_new(old(self)@.queues[i].max_size),
        ));
    }
}

/// A packet of the guest leaves every connection alone but its own.
pub proof fn law_dispatch_frame(
    conns: Seq<Entry>,
    guest_cid: u64,
    pkt: VsockPacket,
    payload: Seq<u8>,
    now: u64,
    key: ConnMapKey,
    conn: ConnView,
)
    requires
        key != key_of(pkt),
    ensures
        conns.contains((key, conn)) <==> dispatched(conns, guest_cid, pkt, payload, now).contains(
            (key, conn),
        ),
{
    let k = key_of(pkt);
    let after = dispatched(conns, guest_cid, pkt, payload, now);
    lemma_find(conns, k, 0);
    let f = find_from(conns, k, 0);
    if conns.contains((key, conn)) {
        let i = conns.index_of((key, conn));
        if pkt.op == VsockOp::Rst.spec_code() && has_key(conns, k) {
            let j = if i < f {
                i
            } else {
                i - 1
            };
            assert(after[j] == (key, conn));
        } else {
            assert(after[i] == (key, conn));
        }
    }
    if after.contains((key, conn)) {
        let i = after.index_of((key, conn));
        if pkt.op == VsockOp::Rst.spec_code() && has_key(conns, k) {
            let j = if i < f {
                i
            } else {
                i + 1
            };
            assert(conns[j] == (key, conn));
        } else {
            assert(conns[i] == (key, conn));
        }
    }
}

/// Whatever packets the guest sends, no key comes to stand for two connections.
pub proof fn law_dispatch_keeps_keys_distinct(
    conns: Seq<Entry>,
    guest_cid: u64,
    pkt: VsockPacket,
    payload: Seq<u8>,
    now: u64,
)
    requires
        keys_distinct(conns),
    ensures
        keys_distinct(dispatched(conns, guest_cid, pkt, payload, now)),
{
    let after = dispatched(conns, guest_cid, pkt, payload, now);
    let k = key_of(pkt);
    lemma_find(conns, k, 0);
    let f = find_from(conns, k, 0);
    assert forall|i: int, j: int| 0 <= i < j < after.len() implies (#[trigger] after[i]).0 != (
    #[trigger] after[j]).0 by {
        if pkt.op == VsockOp::Rst.spec_code() && has_key(conns, k) {
            let a = if i < f {
                i
            } else {
                i + 1
            };
            let b = if j < f {
                j
            } else {
                j + 1
            };
            assert(conns[a].0 != conns[b].0);
        } else if j < conns.len() {
            assert(conns[i].0 != conns[j].0);
        }
    }
}

/// A request of the guest opens a connection that answers it, a reset closes
/// the connection.
pub proof fn law_open_and_close(
    conns: Seq<Entry>,
    guest_cid: u64,
    open: VsockPacket,
    close: VsockPacket,
    payload: Seq<u8>,
    now: u64,
)
    requires
        keys_distinct(conns),
        open.op == VsockOp::Request.spec_code(),
        close.op == VsockOp::Rst.spec_code(),
        key_of(close) == key_of(open),
    ensures
        has_key(dispatched(conns, guest_cid, open, payload, now), key_of(open)),
        !has_key(conns, key_of(open)) ==> entry_of(
            dispatched(conns, guest_cid, open, payload, now),
            key_of(open),
        ).state == ConnState::PeerInit,
        !has_key(
            dispatched(
                dispatched(conns, guest_cid, open, payload, now),
                guest_cid,
                close,
                payload,
                now,
            ),
            key_of(open),
        ),
{
    let k = key_of(open);
    let s = dispatched(conns, guest_cid, open, payload, now);
    law_dispatch_keeps_keys_distinct(conns, guest_cid, open, payload, now);
    lemma_find(conns, k, 0);
    lemma_find(s, k, 0);
    if !has_key(conns, k) {
        assert(s.last().0 == k);
        if find_from(s, k, 0) < s.len() - 1 {
            assert(conns[find_from(s, k, 0)].0 == k);
        }
    }
    let t = dispatched(s, guest_cid, close, payload, now);
    lemma_find(t, k, 0);
    if has_key(t, k) {
        let f = find_from(s, k, 0);
        let i = find_from(t, k, 0);
        let j = if i < f {
            i
        } else {
            i + 1
        };
        assert(s[j].0 == k);
        assert(s[f].0 == k);
    }
}

/// A queue that the driver has not set up is left alone.
pub proof fn law_unready_queue_untouched(
    m: MemView,
    q: VirtQueue,
    conns: Seq<Entry>,
    guest_cid: u64,
    now: u64,
)
    requires
        !q.usable(),
    ensures
        tx_processed(m, q, conns, guest_cid, now) == (RunView {
            mem: m,
            queue: q,
            conns,
            result: Ok(false),
        }),
        rx_processed(m, q, conns, now) == (RunView { mem: m, queue: q, conns, result: Ok(false) }),
{
}

} // verus!
