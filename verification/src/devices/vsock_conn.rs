//! Vsock packets and the state of one vsock connection.
//!
//! A connection never touches a host stream. Bytes from the host are pushed in
//! and wait for the guest's receive queue. Bytes from the guest wait in a ring
//! buffer until the caller has written them to the host stream.
//!
//! Times are milliseconds of a clock that the caller reads.

use crate::bytes::{self, get_le16, get_le32, get_le64, push_le16, push_le32, push_le64};
use crate::failure;
use crate::memory::MemoryError;
use crate::text;
use std::io::Error as IoError;
use vstd::prelude::*;

verus! {

/// Size of the vsock packet header in bytes.
pub const VSOCK_PKT_HDR_SIZE: usize = 44;

/// Host context ID.
pub const HOST_CID: u64 = 2;

/// Stream socket type, the only one there is.
pub const VSOCK_TYPE_STREAM: u16 = 1;

/// Shutdown flag: the sender will receive no more data.
pub const VSOCK_FLAGS_SHUTDOWN_RCV: u32 = 1;

/// Shutdown flag: the sender will send no more data.
pub const VSOCK_FLAGS_SHUTDOWN_SEND: u32 = 2;

/// Capacity of a connection's ring buffer in bytes.
pub const CONN_TX_BUF_SIZE: u32 = 0x1_0000;

/// A credit update goes out once the peer sees less than this many bytes free.
pub const CONN_CREDIT_UPDATE_THRESHOLD: u32 = 0x1000;

/// How long a connection request may stay unanswered, in milliseconds.
pub const CONN_REQUEST_TIMEOUT_MS: u64 = 2000;

/// How long a shutdown may wait for the ring buffer to drain, in milliseconds.
pub const CONN_SHUTDOWN_TIMEOUT_MS: u64 = 2000;

/// Vsock operations.
#[derive(Debug, Clone, Copy, PartialEq, Eq, Structural)]
#[non_exhaustive]
pub enum VsockOp {
    /// Connection request.
    Request,
    /// Connection response.
    Response,
    /// Connection reset.
    Rst,
    /// Connection shutdown.
    Shutdown,
    /// Data.
    Rw,
    /// Credit update.
    CreditUpdate,
    /// Credit request.
    CreditRequest,
}

impl VsockOp {
    /// The operation's code in a packet header.
    pub open spec fn spec_code(self) -> u16 {
        match self {
            VsockOp::Request => 1,
            VsockOp::Response => 2,
            VsockOp::Rst => 3,
            VsockOp::Shutdown => 4,
            VsockOp::Rw => 5,
            VsockOp::CreditUpdate => 6,
            VsockOp::CreditRequest => 7,
        }
    }

    /// The operation's code in a packet header.
    pub fn code(self) -> (r: u16)
        ensures
            r == self.spec_code(),
    {
        match self {
            VsockOp::Request => 1,
            VsockOp::Response => 2,
            VsockOp::Rst => 3,
            VsockOp::Shutdown => 4,
            VsockOp::Rw => 5,
            VsockOp::CreditUpdate => 6,
            VsockOp::CreditRequest => 7,
        }
    }

    /// The operation that a code stands for, if it stands for one.
    pub fn from_u16(v: u16) -> (r: Option<Self>)
        ensures
            match r {
                Some(op) => op.spec_code() == v,
                None => !(1 <= v <= 7),
            },
    {
        match v {
            1 => Some(VsockOp::Request),
            2 => Some(VsockOp::Response),
            3 => Some(VsockOp::Rst),
            4 => Some(VsockOp::Shutdown),
            5 => Some(VsockOp::Rw),
            6 => Some(VsockOp::CreditUpdate),
            7 => Some(VsockOp::CreditRequest),
            _ => None,
        }
    }
}

/// The header of a vsock packet.
#[derive(Debug, Clone, Copy, PartialEq, Eq, Structural)]
pub struct VsockPacket {
    /// Source context ID.
    pub src_cid: u64,
    /// Destination context ID.
    pub dst_cid: u64,
    /// Source port.
    pub src_port: u32,
    /// Destination port.
    pub dst_port: u32,
    /// Payload length in bytes.
    pub len: u32,
    /// Packet type.
    pub pkt_type: u16,
    /// Operation code (see [`VsockOp`]).
    pub op: u16,
    /// Flags.
    pub flags: u32,
    /// The sender's buffer size.
    pub buf_alloc: u32,
    /// How many bytes the sender has taken out of its buffer.
    pub fwd_cnt: u32,
}

impl VsockPacket {
    /// The header at the start of `s`.
    pub open spec fn parse(s: Seq<u8>) -> VsockPacket {
        VsockPacket {
            src_cid: bytes::le64(s, 0),
            dst_cid: bytes::le64(s, 8),
            src_port: bytes::le32(s, 16),
            dst_port: bytes::le32(s, 20),
            len: bytes::le32(s, 24),
            pkt_type: bytes::le16(s, 28),
            op: bytes::le16(s, 30),
            flags: bytes::le32(s, 32),
            buf_alloc: bytes::le32(s, 36),
            fwd_cnt: bytes::le32(s, 40),
        }
    }

    /// The header as 44 bytes.
    pub open spec fn serialized(self) -> Seq<u8> {
        bytes::le64_bytes(self.src_cid) + bytes::le64_bytes(self.dst_cid) + bytes::le32_bytes(
            self.src_port,
        ) + bytes::le32_bytes(self.dst_port) + bytes::le32_bytes(self.len) + bytes::le16_bytes(
            self.pkt_type,
        ) + bytes::le16_bytes(self.op) + bytes::le32_bytes(self.flags) + bytes::le32_bytes(
            self.buf_alloc,
        ) + bytes::le32_bytes(self.fwd_cnt)
    }

    /// Parses the header at the start of `buf`, unless `buf` is too short.
    pub fn from_bytes(buf: &[u8]) -> (r: Option<Self>)
        ensures
            r == (if buf@.len() < VSOCK_PKT_HDR_SIZE {
                None::<Self>
            } else {
                Some(Self::parse(buf@))
            }),
    {
        if buf.len() < VSOCK_PKT_HDR_SIZE {
            return None;
        }
        Some(
            VsockPacket {
                src_cid: get_le64(buf, 0),
                dst_cid: get_le64(buf, 8),
                src_port: get_le32(buf, 16),
                dst_port: get_le32(buf, 20),
                len: get_le32(buf, 24),
                pkt_type: get_le16(buf, 28),
                op: get_le16(buf, 30),
                flags: get_le32(buf, 32),
                buf_alloc: get_le32(buf, 36),
                fwd_cnt: get_le32(buf, 40),
            },
        )
    }

    /// Serializes the header to 44 bytes.
    pub fn to_bytes(&self) -> (r: Vec<u8>)
        ensures
            r@ == self.serialized(),
            r@.len() == VSOCK_PKT_HDR_SIZE,
    {
        let mut r: Vec<u8> = Vec::new();
        push_le64(&mut r, self.src_cid);
        assert(r@ =~= bytes::le64_bytes(self.src_cid));
        push_le64(&mut r, self.dst_cid);
        push_le32(&mut r, self.src_port);
        push_le32(&mut r, self.dst_port);
        push_le32(&mut r, self.len);
        push_le16(&mut r, self.pkt_type);
        push_le16(&mut r, self.op);
        push_le32(&mut r, self.flags);
        push_le32(&mut r, self.buf_alloc);
        push_le32(&mut r, self.fwd_cnt);
        r
    }
}

proof fn lemma_ten_parts(a: Seq<Seq<u8>>, rest: Seq<u8>)
    requires
        a.len() == 10,
        a[0].len() == 8,
        a[1].len() == 8,
        a[2].len() == 4,
        a[3].len() == 4,
        a[4].len() == 4,
        a[5].len() == 2,
        a[6].len() == 2,
        a[7].len() == 4,
        a[8].len() == 4,
        a[9].len() == 4,
    ensures
        ({
            let s = a[0] + a[1] + a[2] + a[3] + a[4] + a[5] + a[6] + a[7] + a[8] + a[9] + rest;
            &&& s.len() == 44 + rest.len()
            &&& s.subrange(0, 8) == a[0]
            &&& s.subrange(8, 16) == a[1]
            &&& s.subrange(16, 20) == a[2]
            &&& s.subrange(20, 24) == a[3]
            &&& s.subrange(24, 28) == a[4]
            &&& s.subrange(28, 30) == a[5]
            &&& s.subrange(30, 32) == a[6]
            &&& s.subrange(32, 36) == a[7]
            &&& s.subrange(36, 40) == a[8]
            &&& s.subrange(40, 44) == a[9]
        }),
{
    let s = a[0] + a[1] + a[2] + a[3] + a[4] + a[5] + a[6] + a[7] + a[8] + a[9] + rest;
    assert(s.subrange(0, 8) =~= a[0]);
    assert(s.subrange(8, 16) =~= a[1]);
    assert(s.subrange(16, 20) =~= a[2]);
    assert(s.subrange(20, 24) =~= a[3]);
    assert(s.subrange(24, 28) =~= a[4]);
    assert(s.subrange(28, 30) =~= a[5]);
    assert(s.subrange(30, 32) =~= a[6]);
    assert(s.subrange(32, 36) =~= a[7]);
    assert(s.subrange(36, 40) =~= a[8]);
    assert(s.subrange(40, 44) =~= a[9]);
}

/// Parsing a serialized header gives the header back, whatever follows it.
pub proof fn law_packet_round_trip(pkt: VsockPacket, payload: Seq<u8>)
    ensures
        pkt.serialized().len() == VSOCK_PKT_HDR_SIZE,
        VsockPacket::parse(pkt.serialized() + payload) == pkt,
{
    let s = pkt.serialized() + payload;
    bytes::law_le64_round_trip(pkt.src_cid);
    bytes::law_le64_round_trip(pkt.dst_cid);
    bytes::law_le32_round_trip(pkt.src_port);
    bytes::law_le32_round_trip(pkt.dst_port);
    bytes::law_le32_round_trip(pkt.len);
    bytes::law_le16_round_trip(pkt.pkt_type);
    bytes::law_le16_round_trip(pkt.op);
    bytes::law_le32_round_trip(pkt.flags);
    bytes::law_le32_round_trip(pkt.buf_alloc);
    bytes::law_le32_round_trip(pkt.fwd_cnt);
    lemma_ten_parts(
        seq![
            bytes::le64_bytes(pkt.src_cid),
            bytes::le64_bytes(pkt.dst_cid),
            bytes::le32_bytes(pkt.src_port),
            bytes::le32_bytes(pkt.dst_port),
            bytes::le32_bytes(pkt.len),
            bytes::le16_bytes(pkt.pkt_type),
            bytes::le16_bytes(pkt.op),
            bytes::le32_bytes(pkt.flags),
            bytes::le32_bytes(pkt.buf_alloc),
            bytes::le32_bytes(pkt.fwd_cnt),
        ],
        payload,
    );
    bytes::lemma_le64_at(s, 0);
    bytes::lemma_le64_at(s, 8);
    bytes::lemma_le32_at(s, 16);
    bytes::lemma_le32_at(s, 20);
    bytes::lemma_le32_at(s, 24);
    bytes::lemma_le16_at(s, 28);
    bytes::lemma_le16_at(s, 30);
    bytes::lemma_le32_at(s, 32);
    bytes::lemma_le32_at(s, 36);
    bytes::lemma_le32_at(s, 40);
}

/// Errors of vsock connections and devices.
#[derive(Debug)]
#[non_exhaustive]
pub enum VsockError {
    /// The ring buffer is full: the peer did not keep to its credit.
    TxBufFull,
    /// Writing the ring buffer to the host stream failed.
    TxBufFlush(IoError),
    /// There is nothing to deliver.
    NoData,
    /// Guest memory access error.
    Memory(MemoryError),
    /// Invalid virtqueue descriptor.
    InvalidDescriptor(String),
}

impl VsockError {
    /// What the text that describes the error is, or starts with.
    pub open spec fn spec_message(self) -> Seq<char> {
        match self {
            VsockError::TxBufFull => "TX buffer is full"@,
            VsockError::TxBufFlush(_) => "TX buffer flush I/O error: "@,
            VsockError::NoData => "no pending RX data"@,
            VsockError::Memory(e) => "guest memory error: "@ + e.spec_message(),
            VsockError::InvalidDescriptor(s) => "invalid descriptor: "@ + s@,
        }
    }

    /// Whether the host's own text stands behind that of the error.
    pub open spec fn has_host_text(self) -> bool {
        self is TxBufFlush
    }

    /// The text that describes the error.
    pub fn message(&self) -> (r: String)
        ensures
            self.has_host_text() ==> text::begins_with(r@, self.spec_message()),
            !self.has_host_text() ==> r@ == self.spec_message(),
    {
        match self {
            VsockError::TxBufFull => "TX buffer is full".to_owned(),
            VsockError::TxBufFlush(e) => failure::io_message("TX buffer flush I/O error: ", e),
            VsockError::NoData => "no pending RX data".to_owned(),
            VsockError::Memory(e) => text::behind("guest memory error: ", e.message().as_str()),
            VsockError::InvalidDescriptor(s) => text::behind("invalid descriptor: ", s.as_str()),
        }
    }
}

/// The state of a connection.
#[derive(Clone, Copy, Debug, PartialEq, Eq, Structural)]
#[non_exhaustive]
pub enum ConnState {
    /// The host asked for the connection and waits for the guest's response.
    LocalInit,
    /// The guest asked for the connection and waits for the host's response.
    PeerInit,
    /// Data may flow.
    Established,
    /// The host's stream was closed.
    LocalClosed,
    /// The guest shut down: it will not receive (first) or not send (second) any more.
    PeerClosed(bool, bool),
    /// The connection is to be reset.
    Killed,
}

/// What a connection has to tell the guest.
#[derive(Debug, Clone, Copy, PartialEq, Eq, Structural)]
pub enum PendingRx {
    /// Connection request.
    Request,
    /// Connection response.
    Response,
    /// Reset.
    Rst,
    /// Data, or the end of it.
    Rw,
    /// Credit update.
    CreditUpdate,
}

impl PendingRx {
    /// The bit that stands for the indication.
    pub open spec fn spec_mask(self) -> u16 {
        match self {
            PendingRx::Request => 1,
            PendingRx::Response => 2,
            PendingRx::Rst => 4,
            PendingRx::Rw => 8,
            PendingRx::CreditUpdate => 16,
        }
    }

    fn into_mask(self) -> (r: u16)
        ensures
            r == self.spec_mask(),
    {
        match self {
            PendingRx::Request => 1,
            PendingRx::Response => 2,
            PendingRx::Rst => 4,
            PendingRx::Rw => 8,
            PendingRx::CreditUpdate => 16,
        }
    }
}

/// Setting and clearing one of the five bits touches no other.
proof fn lemma_masks(d: u16, a: u16, b: u16)
    by (bit_vector)
    requires
        d < 32,
        a == 1 || a == 2 || a == 4 || a == 8 || a == 16,
        b == 1 || b == 2 || b == 4 || b == 8 || b == 16,
    ensures
        (d | a) < 32,
        (d & !a) < 32,
        (d | a) & b != 0 <==> (a == b || d & b != 0),
        (d & !a) & b != 0 <==> (a != b && d & b != 0),
        a & b != 0 <==> a == b,
{
}

proof fn lemma_no_mask(d: u16)
    by (bit_vector)
    requires
        d < 32,
    ensures
        d == 0 <==> (d & 1 == 0 && d & 2 == 0 && d & 4 == 0 && d & 8 == 0 && d & 16 == 0),
{
}

/// A set of indications, kept as bits.
#[derive(Debug)]
pub struct PendingRxSet {
    data: u16,
}

impl View for PendingRxSet {
    type V = Set<PendingRx>;

    closed spec fn view(&self) -> Set<PendingRx> {
        Set::new(|it: PendingRx| self.data & it.spec_mask() != 0)
    }
}

impl PendingRxSet {
    /// Only the five bits are in use.
    pub closed spec fn wf(self) -> bool {
        self.data < 32
    }

    /// The empty set.
    pub fn empty() -> (r: Self)
        ensures
            r.wf(),
            r@ == Set::<PendingRx>::empty(),
    {
        let r = PendingRxSet { data: 0 };
        proof {
            lemma_no_mask(0);
            assert(r@ =~= Set::<PendingRx>::empty());
        }
        r
    }

    /// The set of one indication.
    pub fn of(it: PendingRx) -> (r: Self)
        ensures
            r.wf(),
            r@ == Set::<PendingRx>::empty().insert(it),
    {
        let mut r = PendingRxSet::empty();
        r.insert(it);
        r
    }

    /// Adds an indication.
    pub fn insert(&mut self, it: PendingRx)
        requires
            old(self).wf(),
        ensures
            final(self).wf(),
            final(self)@ == old(self)@.insert(it),
    {
        self.data = self.data | it.into_mask();
        proof {
            assert forall|x: PendingRx| #[trigger]
                self@.contains(x) == old(self)@.insert(it).contains(x) by {
                lemma_masks(old(self).data, it.spec_mask(), x.spec_mask());
            }
            lemma_masks(old(self).data, it.spec_mask(), 1);
            assert(self@ =~= old(self)@.insert(it));
        }
    }

    /// Takes an indication out, and says whether it was in.
    pub fn remove(&mut self, it: PendingRx) -> (r: bool)
        requires
            old(self).wf(),
        ensures
            final(self).wf(),
            r == old(self)@.contains(it),
            final(self)@ == old(self)@.remove(it),
    {
        let present = self.contains(it);
        self.data = self.data & !it.into_mask();
        proof {
            assert forall|x: PendingRx| #[trigger]
                self@.contains(x) == old(self)@.remove(it).contains(x) by {
                lemma_masks(old(self).data, it.spec_mask(), x.spec_mask());
            }
            lemma_masks(old(self).data, it.spec_mask(), 1);
            assert(self@ =~= old(self)@.remove(it));
        }
        present
    }

    /// Whether an indication is in the set.
    pub fn contains(&self, it: PendingRx) -> (r: bool)
        ensures
            r == self@.contains(it),
    {
        self.data & it.into_mask() != 0
    }

    /// Whether the set is empty.
    pub fn is_empty(&self) -> (r: bool)
        requires
            self.wf(),
        ensures
            r == (self@ == Set::<PendingRx>::empty()),
    {
        proof {
            lemma_no_mask(self.data);
            if self.data == 0 {
                assert(self@ =~= Set::<PendingRx>::empty());
            } else {
                let s = self@;
                assert(s.contains(PendingRx::Request) || s.contains(PendingRx::Response)
                    || s.contains(PendingRx::Rst) || s.contains(PendingRx::Rw) || s.contains(
                    PendingRx::CreditUpdate,
                ));
            }
        }
        self.data == 0
    }
}

/// Where byte `k` of the ring lies, seen from the write position `head`.
proof fn lemma_ring_position(tail: int, head: int, used: int, n: int, k: int)
    requires
        0 <= tail,
        0 <= used,
        0 <= n,
        used + n <= 0x1_0000,
        head == tail + used || head == tail + used - 0x1_0000_0000,
        0 <= k < used + n,
    ensures
        k < used ==> ((tail + k) % 0x1_0000 - head % 0x1_0000) % 0x1_0000 >= n,
        k >= used ==> (tail + k) % 0x1_0000 == (head % 0x1_0000 + (k - used)) % 0x1_0000,
{
    let q = (tail + used) / 0x1_0000;
    let start = (tail + used) % 0x1_0000;
    assert(tail + used == 0x1_0000 * q + start);
    assert(head % 0x1_0000 == start);
    let d = k - used;
    assert(tail + k == 0x1_0000 * q + start + d);
    assert((tail + k) % 0x1_0000 == (start + d) % 0x1_0000);
    if k < used {
        let j = (start + d) % 0x1_0000;
        assert(j == start + d || j == start + d + 0x1_0000);
        assert((j - start) % 0x1_0000 == d + 0x1_0000 || d == -0x1_0000);
    }
}

/// Where bytes lie behind the end of the storage.
proof fn lemma_wrapped(tail: int, k: int)
    requires
        0 <= tail,
        0 <= k < 0x1_0000,
    ensures
        (tail + (0x1_0000 - tail % 0x1_0000) + k) % 0x1_0000 == k,
{
    let q = tail / 0x1_0000;
    assert(tail == 0x1_0000 * q + tail % 0x1_0000);
    assert(tail + (0x1_0000 - tail % 0x1_0000) + k == 0x1_0000 * (q + 1) + k);
}

/// Ring buffer for bytes on their way from the guest to the host.
///
/// The storage is allocated by the first push.
#[derive(Debug)]
pub struct TxBuf {
    data: Option<Vec<u8>>,
    head: u32,
    tail: u32,
}

impl View for TxBuf {
    type V = Seq<u8>;

    closed spec fn view(&self) -> Seq<u8> {
        match self.data {
            Some(d) => Seq::new(self.spec_len(), |i: int| d@[(self.tail + i) % 0x1_0000]),
            None => Seq::empty(),
        }
    }
}

impl TxBuf {
    spec fn spec_len(self) -> nat {
        if self.head >= self.tail {
            (self.head - self.tail) as nat
        } else {
            (self.head - self.tail + 0x1_0000_0000) as nat
        }
    }

    /// The buffer is never fuller than its capacity, and is empty before its
    /// storage is there.
    pub closed spec fn wf(self) -> bool {
        &&& self.spec_len() <= CONN_TX_BUF_SIZE
        &&& match self.data {
            Some(d) => d@.len() == CONN_TX_BUF_SIZE,
            None => self.spec_len() == 0,
        }
    }

    /// How many of the oldest bytes lie in one run of the storage.
    pub closed spec fn run_len(self) -> nat {
        let to_end = (0x1_0000 - self.tail % 0x1_0000) as nat;
        if to_end < self@.len() {
            to_end
        } else {
            self@.len()
        }
    }

    /// The first run is not empty unless the buffer is, and no longer than it.
    pub proof fn lemma_run_len(self)
        requires
            self.wf(),
        ensures
            self.run_len() <= self@.len(),
            self.run_len() == 0 <==> self@.len() == 0,
            self@.len() <= CONN_TX_BUF_SIZE,
    {
    }

    /// Creates an empty buffer.
    pub fn new() -> (r: Self)
        ensures
            r.wf(),
            r@ == Seq::<u8>::empty(),
    {
        TxBuf { data: None, head: 0, tail: 0 }
    }

    /// Number of bytes in the buffer.
    pub fn len(&self) -> (r: usize)
        requires
            self.wf(),
        ensures
            r == self@.len(),
            r <= CONN_TX_BUF_SIZE,
    {
        self.head.wrapping_sub(self.tail) as usize
    }

    /// Whether the buffer holds no bytes.
    pub fn is_empty(&self) -> (r: bool)
        requires
            self.wf(),
        ensures
            r == (self@.len() == 0),
    {
        self.len() == 0
    }

    /// Appends all of `src`, or nothing if it does not fit.
    pub fn push(&mut self, src: &[u8]) -> (r: Result<(), VsockError>)
        requires
            old(self).wf(),
        ensures
            final(self).wf(),
            match r {
                Ok(_) => old(self)@.len() + src@.len() <= CONN_TX_BUF_SIZE && final(self)@ == old(
                    self,
                )@ + src@,
                Err(e) => e is TxBufFull && old(self)@.len() + src@.len() > CONN_TX_BUF_SIZE
                    && final(self)@ == old(self)@,
            },
    {
        let size: usize = CONN_TX_BUF_SIZE as usize;
        let used: usize = self.len();
        if src.len() > size - used {
            return Err(VsockError::TxBufFull);
        }
        let mut data: Vec<u8> = match self.data.take() {
            Some(d) => d,
            None => crate::bytes::zero_vec(size),
        };
        let ghost before = data@;
        let n: usize = src.len();
        let start: usize = (self.head % CONN_TX_BUF_SIZE) as usize;
        let mut i: usize = 0;
        while i < n
            invariant
                i <= n,
                n == src@.len(),
                n <= size,
                size == 0x1_0000,
                start < size,
                data@.len() == size,
                before.len() == size,
                forall|k: int| 0 <= k < i ==> data@[(start + k) % 0x1_0000] == #[trigger] src@[k],
                forall|j: int|
                    0 <= j < size && i <= (j - start) % 0x1_0000 ==> #[trigger] data@[j]
                        == before[j],
            decreases n - i,
        {
            let pos: usize = (start + i) % size;
            let ghost prev = data@;
            data.set(pos, src[i]);
            proof {
                assert forall|k: int| 0 <= k < i implies data@[(start + k) % 0x1_0000]
                    == #[trigger] src@[k] by {
                    assert((start + k) % 0x1_0000 != pos);
                    assert(prev[(start + k) % 0x1_0000] == src@[k]);
                }
            }
            i = i + 1;
        }
        let ghost stored = data@;
        self.data = Some(data);
        self.head = self.head.wrapping_add(n as u32);
        proof {
            assert(self.spec_len() == old(self).spec_len() + n);
            assert forall|k: int| 0 <= k < self@.len() implies #[trigger] self@[k] == (old(self)@
                + src@)[k] by {
                lemma_ring_position(
                    self.tail as int,
                    old(self).head as int,
                    used as int,
                    n as int,
                    k,
                );
                if k < used {
                    let j = (self.tail + k) % 0x1_0000;
                    assert(stored[j] == before[j]);
                } else {
                    assert(src@[k - used] == stored[(start + (k - used)) % 0x1_0000]);
                }
            }
            assert(self@ =~= old(self)@ + src@);
        }
        Ok(())
    }

    /// The oldest bytes, as far as they lie in one run of the storage.
    pub fn first_run(&self) -> (r: Vec<u8>)
        requires
            self.wf(),
        ensures
            r@ == self@.subrange(0, self.run_len() as int),
    {
        let size: usize = CONN_TX_BUF_SIZE as usize;
        let start: usize = (self.tail % CONN_TX_BUF_SIZE) as usize;
        let used: usize = self.len();
        let to_end: usize = size - start;
        let n: usize = if to_end < used {
            to_end
        } else {
            used
        };
        match &self.data {
            Some(d) => {
                let r = vstd::slice::slice_to_vec(
                    vstd::slice::slice_subrange(d.as_slice(), start, start + n),
                );
                assert(r@ =~= self@.subrange(0, self.run_len() as int));
                r
            },
            None => {
                let r: Vec<u8> = Vec::new();
                assert(r@ =~= self@.subrange(0, self.run_len() as int));
                r
            },
        }
    }

    /// The bytes behind the first run, which lie at the start of the storage.
    pub fn second_run(&self) -> (r: Vec<u8>)
        requires
            self.wf(),
        ensures
            r@ == self@.skip(self.run_len() as int),
    {
        let size: usize = CONN_TX_BUF_SIZE as usize;
        let start: usize = (self.tail % CONN_TX_BUF_SIZE) as usize;
        let used: usize = self.len();
        let to_end: usize = size - start;
        let n: usize = if to_end < used {
            used - to_end
        } else {
            0
        };
        match &self.data {
            Some(d) => {
                let r = vstd::slice::slice_to_vec(
                    vstd::slice::slice_subrange(d.as_slice(), 0, n),
                );
                proof {
                    let rest = self@.skip(self.run_len() as int);
                    assert forall|k: int| 0 <= k < n implies #[trigger] rest[k] == r@[k] by {
                        lemma_wrapped(self.tail as int, k);
                    }
                    assert(r@ =~= rest);
                }
                r
            },
            None => {
                let r: Vec<u8> = Vec::new();
                assert(r@ =~= self@.skip(self.run_len() as int));
                r
            },
        }
    }

    /// Drops the `n` oldest bytes.
    pub fn consume(&mut self, n: usize)
        requires
            old(self).wf(),
            n <= old(self)@.len(),
        ensures
            final(self).wf(),
            final(self)@ == old(self)@.skip(n as int),
    {
        self.tail = self.tail.wrapping_add(n as u32);
        assert(self@ =~= old(self)@.skip(n as int));
    }
}

/// `a - b` in 32-bit wrapping arithmetic.
pub open spec fn wrap_sub(a: u32, b: u32) -> u32 {
    if a >= b {
        (a - b) as u32
    } else {
        (a - b + 0x1_0000_0000) as u32
    }
}

/// `a + b` in 32-bit wrapping arithmetic.
pub open spec fn wrap_add(a: u32, b: u32) -> u32 {
    if a + b <= u32::MAX {
        (a + b) as u32
    } else {
        (a + b - 0x1_0000_0000) as u32
    }
}

/// What is free of `size` bytes of which `used` are taken: nothing if more are
/// taken than there are.
pub open spec fn room(size: u32, used: u32) -> u32 {
    if used >= size {
        0
    } else {
        (size - used) as u32
    }
}

/// How many bytes the second write of a flush took: none if there was none or it
/// failed.
pub open spec fn second_taken(second: Option<Result<usize, IoError>>) -> usize {
    match second {
        Some(Ok(m)) => m,
        _ => 0,
    }
}

/// The time `ms` milliseconds after `now`.
pub open spec fn later(now: u64, ms: u64) -> u64 {
    if now + ms <= u64::MAX {
        (now + ms) as u64
    } else {
        u64::MAX
    }
}

/// What a connection is.
#[verifier::ext_equal]
pub struct ConnView {
    pub state: ConnState,
    pub local_cid: u64,
    pub peer_cid: u64,
    pub local_port: u32,
    pub peer_port: u32,
    /// Bytes from the guest that the host stream has not taken yet.
    pub tx: Seq<u8>,
    /// How many of the guest's bytes the host stream has taken.
    pub fwd_cnt: u32,
    /// The guest's buffer size, as it last said.
    pub peer_buf_alloc: u32,
    /// How many bytes the guest has taken out of its buffer, as it last said.
    pub peer_fwd_cnt: u32,
    /// How many bytes were delivered to the guest.
    pub rx_cnt: u32,
    /// `fwd_cnt` as the guest last heard it.
    pub last_fwd_cnt_to_peer: u32,
    pub pending: Set<PendingRx>,
    /// When the connection expires.
    pub expiry: Option<u64>,
    /// Bytes from the host that wait for the guest.
    pub rx: Seq<u8>,
    pub host_closed: bool,
}

impl ConnView {
    /// A connection that nothing has happened on.
    pub open spec fn fresh(
        state: ConnState,
        local_cid: u64,
        peer_cid: u64,
        local_port: u32,
        peer_port: u32,
        peer_buf_alloc: u32,
        first: PendingRx,
    ) -> ConnView {
        ConnView {
            state,
            local_cid,
            peer_cid,
            local_port,
            peer_port,
            tx: Seq::empty(),
            fwd_cnt: 0,
            peer_buf_alloc,
            peer_fwd_cnt: 0,
            rx_cnt: 0,
            last_fwd_cnt_to_peer: 0,
            pending: Set::<PendingRx>::empty().insert(first),
            expiry: None,
            rx: Seq::empty(),
            host_closed: false,
        }
    }

    /// How many bytes went to the guest that it has not taken in yet.
    pub open spec fn in_flight(self) -> u32 {
        wrap_sub(self.rx_cnt, self.peer_fwd_cnt)
    }

    /// How many bytes can go to the guest without overflowing the buffer that it
    /// advertised.
    pub open spec fn credit(self) -> u32 {
        room(self.peer_buf_alloc, self.in_flight())
    }

    /// Whether the guest should be told how much room the ring buffer has.
    pub open spec fn owes_credit_update(self) -> bool {
        room(CONN_TX_BUF_SIZE, wrap_sub(self.fwd_cnt, self.last_fwd_cnt_to_peer))
            < CONN_CREDIT_UPDATE_THRESHOLD
    }

    pub open spec fn with_pending(self, it: PendingRx) -> ConnView {
        ConnView { pending: self.pending.insert(it), ..self }
    }

    pub open spec fn without_pending(self, it: PendingRx) -> ConnView {
        ConnView { pending: self.pending.remove(it), ..self }
    }

    pub open spec fn with_pending_if(self, c: bool, it: PendingRx) -> ConnView {
        if c {
            self.with_pending(it)
        } else {
            self
        }
    }

    /// A header to the guest with operation code `op`.
    pub open spec fn header(self, op: u16) -> VsockPacket {
        VsockPacket {
            src_cid: self.local_cid,
            dst_cid: self.peer_cid,
            src_port: self.local_port,
            dst_port: self.peer_port,
            len: 0,
            pkt_type: VSOCK_TYPE_STREAM,
            op,
            flags: 0,
            buf_alloc: CONN_TX_BUF_SIZE,
            fwd_cnt: self.fwd_cnt,
        }
    }

    /// The connection after `data` came in from the host.
    pub open spec fn host_data(self, data: Seq<u8>) -> ConnView {
        ConnView { rx: self.rx + data, ..self.with_pending(PendingRx::Rw) }
    }

    /// The connection after the host stream was closed.
    pub open spec fn host_gone(self) -> ConnView {
        ConnView { host_closed: true, ..self.with_pending(PendingRx::Rw) }
    }

    /// The connection after the host stream took the `n` oldest bytes.
    pub open spec fn flushed(self, n: nat) -> ConnView {
        let c = ConnView {
            tx: self.tx.skip(n as int),
            fwd_cnt: wrap_add(self.fwd_cnt, n as u32),
            ..self
        };
        if c.state == ConnState::PeerClosed(true, true) && c.tx.len() == 0 {
            c.with_pending(PendingRx::Rst)
        } else {
            c.with_pending_if(c.owes_credit_update(), PendingRx::CreditUpdate)
        }
    }

    /// The connection with the credit that a packet of the guest brings.
    pub open spec fn with_credit_from(self, pkt: VsockPacket) -> ConnView {
        let c = ConnView { peer_buf_alloc: pkt.buf_alloc, peer_fwd_cnt: pkt.fwd_cnt, ..self };
        c.with_pending_if(c.credit() > 0 && c.rx.len() > 0, PendingRx::Rw)
    }

    /// The connection after a packet of the guest, and whether the payload fit.
    pub open spec fn sent(self, pkt: VsockPacket, payload: Seq<u8>, now: u64) -> (ConnView, bool) {
        let c = self.with_credit_from(pkt);
        let no_recv = pkt.flags & VSOCK_FLAGS_SHUTDOWN_RCV != 0;
        let no_send = pkt.flags & VSOCK_FLAGS_SHUTDOWN_SEND != 0;
        let sends = match c.state {
            ConnState::Established => true,
            ConnState::PeerClosed(_, no_send) => !no_send,
            _ => false,
        };
        if pkt.op == VsockOp::Rw.spec_code() && sends {
            if payload.len() == 0 {
                (c, true)
            } else if c.tx.len() + payload.len() > CONN_TX_BUF_SIZE {
                (c, false)
            } else {
                (
                    (ConnView { tx: c.tx + payload, ..c }).with_pending_if(
                        c.owes_credit_update(),
                        PendingRx::CreditUpdate,
                    ),
                    true,
                )
            }
        } else if pkt.op == VsockOp::Response.spec_code() && c.state == ConnState::LocalInit {
            (ConnView { state: ConnState::Established, expiry: None, ..c }, true)
        } else if pkt.op == VsockOp::Shutdown.spec_code() && c.state == ConnState::Established {
            let d = ConnView { state: ConnState::PeerClosed(no_recv, no_send), ..c };
            if no_recv && no_send {
                if c.tx.len() == 0 {
                    (d.with_pending(PendingRx::Rst), true)
                } else {
                    (ConnView { expiry: Some(later(now, CONN_SHUTDOWN_TIMEOUT_MS)), ..d }, true)
                }
            } else {
                (d, true)
            }
        } else if pkt.op == VsockOp::Shutdown.spec_code() && c.state is PeerClosed {
            let r = c.state->PeerClosed_0 || no_recv;
            let s = c.state->PeerClosed_1 || no_send;
            (
                (ConnView { state: ConnState::PeerClosed(r, s), ..c }).with_pending_if(
                    r && s && c.tx.len() == 0,
                    PendingRx::Rst,
                ),
                true,
            )
        } else if pkt.op == VsockOp::CreditRequest.spec_code() && (sends || c.state
            == ConnState::PeerInit) {
            (c.with_pending(PendingRx::CreditUpdate), true)
        } else {
            (c, true)
        }
    }

    /// The connection after a data indication was taken up, and the packet for
    /// the guest, if there is one.
    pub open spec fn received_data(self, max: nat, now: u64) -> (
        ConnView,
        Option<(VsockPacket, Seq<u8>)>,
    ) {
        let nothing = Seq::<u8>::empty();
        let delivers = match self.state {
            ConnState::Established => true,
            ConnState::PeerClosed(no_recv, _) => !no_recv,
            _ => false,
        };
        if self.state == ConnState::LocalInit || self.state == ConnState::PeerInit {
            (self.with_pending(PendingRx::Rw), None)
        } else if !delivers {
            (self, Some((self.header(VsockOp::Rst.spec_code()), nothing)))
        } else if self.credit() == 0 {
            (
                (ConnView { last_fwd_cnt_to_peer: self.fwd_cnt, ..self }).with_pending(
                    PendingRx::Rw,
                ),
                Some((self.header(VsockOp::CreditRequest.spec_code()), nothing)),
            )
        } else if self.rx.len() == 0 {
            if self.host_closed {
                (
                    ConnView {
                        state: ConnState::LocalClosed,
                        expiry: Some(later(now, CONN_SHUTDOWN_TIMEOUT_MS)),
                        ..self
                    },
                    Some(
                        (
                            VsockPacket {
                                flags: VSOCK_FLAGS_SHUTDOWN_RCV | VSOCK_FLAGS_SHUTDOWN_SEND,
                                ..self.header(VsockOp::Shutdown.spec_code())
                            },
                            nothing,
                        ),
                    ),
                )
            } else {
                (self, None)
            }
        } else if max == 0 {
            (self.with_pending(PendingRx::Rw), None)
        } else {
            let n = self.delivery_len(max);
            (
                (ConnView {
                    rx: self.rx.skip(n as int),
                    rx_cnt: wrap_add(self.rx_cnt, n as u32),
                    last_fwd_cnt_to_peer: self.fwd_cnt,
                    ..self
                }).with_pending_if(self.host_closed, PendingRx::Rw),
                Some(
                    (
                        VsockPacket {
                            len: n as u32,
                            ..self.header(VsockOp::Rw.spec_code())
                        },
                        self.rx.subrange(0, n as int),
                    ),
                ),
            )
        }
    }

    /// How many bytes the next data packet carries: as many as are there, fit
    /// into `max` and the guest has room for.
    pub open spec fn delivery_len(self, max: nat) -> nat {
        let fits = if max < self.credit() {
            max
        } else {
            self.credit() as nat
        };
        if fits < self.rx.len() {
            fits
        } else {
            self.rx.len()
        }
    }

    /// The connection after the guest's receive queue asked for a packet, and
    /// the packet, if there is one.
    pub open spec fn received(self, max: nat, now: u64) -> (
        ConnView,
        Option<(VsockPacket, Seq<u8>)>,
    ) {
        let nothing = Seq::<u8>::empty();
        if self.pending.contains(PendingRx::Rst) {
            (
                self.without_pending(PendingRx::Rst),
                Some((self.header(VsockOp::Rst.spec_code()), nothing)),
            )
        } else if self.pending.contains(PendingRx::Response) {
            (
                ConnView {
                    state: ConnState::Established,
                    ..self.without_pending(PendingRx::Response)
                },
                Some((self.header(VsockOp::Response.spec_code()), nothing)),
            )
        } else if self.pending.contains(PendingRx::Request) {
            (
                ConnView {
                    expiry: Some(later(now, CONN_REQUEST_TIMEOUT_MS)),
                    ..self.without_pending(PendingRx::Request)
                },
                Some((self.header(VsockOp::Request.spec_code()), nothing)),
            )
        } else if self.pending.contains(PendingRx::Rw) {
            self.without_pending(PendingRx::Rw).received_data(max, now)
        } else if self.pending.contains(PendingRx::CreditUpdate) {
            (
                ConnView {
                    last_fwd_cnt_to_peer: self.fwd_cnt,
                    ..self.without_pending(PendingRx::CreditUpdate)
                },
                Some((self.header(VsockOp::CreditUpdate.spec_code()), nothing)),
            )
        } else {
            (self, None)
        }
    }

    /// Whether the connection's time is over.
    pub open spec fn expired(self, now: u64) -> bool {
        match self.expiry {
            Some(t) => t <= now,
            None => false,
        }
    }
}

/// One vsock connection between the host and the guest.
#[derive(Debug)]
pub struct VsockConnection {
    state: ConnState,
    local_cid: u64,
    peer_cid: u64,
    local_port: u32,
    peer_port: u32,
    tx_buf: TxBuf,
    fwd_cnt: u32,
    peer_buf_alloc: u32,
    peer_fwd_cnt: u32,
    rx_cnt: u32,
    last_fwd_cnt_to_peer: u32,
    pending_rx: PendingRxSet,
    expiry: Option<u64>,
    rx_buf: Vec<u8>,
    host_closed: bool,
}

impl View for VsockConnection {
    type V = ConnView;

    closed spec fn view(&self) -> ConnView {
        ConnView {
            state: self.state,
            local_cid: self.local_cid,
            peer_cid: self.peer_cid,
            local_port: self.local_port,
            peer_port: self.peer_port,
            tx: self.tx_buf@,
            fwd_cnt: self.fwd_cnt,
            peer_buf_alloc: self.peer_buf_alloc,
            peer_fwd_cnt: self.peer_fwd_cnt,
            rx_cnt: self.rx_cnt,
            last_fwd_cnt_to_peer: self.last_fwd_cnt_to_peer,
            pending: self.pending_rx@,
            expiry: self.expiry,
            rx: self.rx_buf@,
            host_closed: self.host_closed,
        }
    }
}

impl VsockConnection {
    pub closed spec fn wf(self) -> bool {
        self.tx_buf.wf() && self.pending_rx.wf()
    }

    /// How many of the oldest bytes for the host lie in one run.
    pub closed spec fn tx_run_len(self) -> nat {
        self.tx_buf.run_len()
    }

    /// Creates a connection that the guest asked for.
    pub fn new_peer_init(
        local_cid: u64,
        peer_cid: u64,
        local_port: u32,
        peer_port: u32,
        peer_buf_alloc: u32,
    ) -> (r: Self)
        ensures
            r.wf(),
            r@ == ConnView::fresh(
                ConnState::PeerInit,
                local_cid,
                peer_cid,
                local_port,
                peer_port,
                peer_buf_alloc,
                PendingRx::Response,
            ),
    {
        VsockConnection {
            state: ConnState::PeerInit,
            local_cid,
            peer_cid,
            local_port,
            peer_port,
            tx_buf: TxBuf::new(),
            fwd_cnt: 0,
            peer_buf_alloc,
            peer_fwd_cnt: 0,
            rx_cnt: 0,
            last_fwd_cnt_to_peer: 0,
            pending_rx: PendingRxSet::of(PendingRx::Response),
            expiry: None,
            rx_buf: Vec::new(),
            host_closed: false,
        }
    }

    /// Creates a connection that the host asks for.
    pub fn new_local_init(local_cid: u64, peer_cid: u64, local_port: u32, peer_port: u32) -> (r:
        Self)
        ensures
            r.wf(),
            r@ == ConnView::fresh(
                ConnState::LocalInit,
                local_cid,
                peer_cid,
                local_port,
                peer_port,
                0,
                PendingRx::Request,
            ),
    {
        VsockConnection {
            state: ConnState::LocalInit,
            local_cid,
            peer_cid,
            local_port,
            peer_port,
            tx_buf: TxBuf::new(),
            fwd_cnt: 0,
            peer_buf_alloc: 0,
            peer_fwd_cnt: 0,
            rx_cnt: 0,
            last_fwd_cnt_to_peer: 0,
            pending_rx: PendingRxSet::of(PendingRx::Request),
            expiry: None,
            rx_buf: Vec::new(),
            host_closed: false,
        }
    }

    /// The current state.
    pub fn state(&self) -> (r: ConnState)
        ensures
            r == self@.state,
    {
        self.state
    }

    /// The host's port.
    pub fn local_port(&self) -> (r: u32)
        ensures
            r == self@.local_port,
    {
        self.local_port
    }

    /// The guest's port.
    pub fn peer_port(&self) -> (r: u32)
        ensures
            r == self@.peer_port,
    {
        self.peer_port
    }

    /// Whether there is something to tell the guest.
    pub fn has_pending_rx(&self) -> (r: bool)
        requires
            self.wf(),
        ensures
            r == (self@.pending != Set::<PendingRx>::empty()),
    {
        !self.pending_rx.is_empty()
    }

    /// Whether the connection's time is over at `now`.
    pub fn has_expired(&self, now: u64) -> (r: bool)
        ensures
            r == self@.expired(now),
    {
        match self.expiry {
            None => false,
            Some(t) => t <= now,
        }
    }

    /// Whether the connection's time will be over some time after `now`.
    pub fn will_expire(&self, now: u64) -> (r: bool)
        ensures
            r == (self@.expiry is Some && !self@.expired(now)),
    {
        match self.expiry {
            None => false,
            Some(t) => t > now,
        }
    }

    /// Has the connection reset with the next packet for the guest.
    pub fn kill(&mut self)
        requires
            old(self).wf(),
        ensures
            final(self).wf(),
            final(self)@ == (ConnView {
                state: ConnState::Killed,
                ..old(self)@.with_pending(PendingRx::Rst)
            }),
    {
        self.state = ConnState::Killed;
        self.pending_rx.insert(PendingRx::Rst);
    }

    /// Takes in bytes from the host stream for the guest.
    pub fn push_host_data(&mut self, data: &[u8])
        requires
            old(self).wf(),
        ensures
            final(self).wf(),
            final(self)@ == old(self)@.host_data(data@),
    {
        crate::bytes::push_bytes(&mut self.rx_buf, data);
        self.pending_rx.insert(PendingRx::Rw);
    }

    /// Notes that the host stream was closed. Once all bytes for the guest are
    /// delivered, the next packet is a shutdown.
    pub fn notify_host_closed(&mut self)
        requires
            old(self).wf(),
        ensures
            final(self).wf(),
            final(self)@ == old(self)@.host_gone(),
    {
        self.host_closed = true;
        self.pending_rx.insert(PendingRx::Rw);
    }

    /// The bytes for the host stream in the two runs in which they are stored.
    pub fn tx_runs(&self) -> (r: (Vec<u8>, Vec<u8>))
        requires
            self.wf(),
        ensures
            r.0@ == self@.tx.subrange(0, self.tx_run_len() as int),
            r.1@ == self@.tx.skip(self.tx_run_len() as int),
            r.0@ + r.1@ == self@.tx,
    {
        let first = self.tx_buf.first_run();
        let second = self.tx_buf.second_run();
        proof {
            self.tx_buf.lemma_run_len();
            assert(first@ + second@ =~= self@.tx);
        }
        (first, second)
    }

    /// The bytes that a flush writes to the host stream first: the first run.
    /// Where nothing is buffered, nothing is written.
    pub fn flush_first(&self) -> (r: Option<Vec<u8>>)
        requires
            self.wf(),
        ensures
            r is None <==> self@.tx.len() == 0,
            r matches Some(b) ==> b@.len() > 0 && b@ == self@.tx.subrange(
                0,
                self.tx_run_len() as int,
            ),
    {
        proof {
            self.tx_buf.lemma_run_len();
        }
        if self.tx_buf.is_empty() {
            None
        } else {
            Some(self.tx_buf.first_run())
        }
    }

    /// The bytes that a flush writes next, after this came of writing the first
    /// run: the second run, if the first was taken whole and there is one.
    pub fn flush_after(&self, first: Result<usize, IoError>) -> (r: Result<
        Option<Vec<u8>>,
        VsockError,
    >)
        requires
            self.wf(),
            first matches Ok(n) ==> n <= self.tx_run_len(),
        ensures
            match first {
                Err(e) => r == Err::<Option<Vec<u8>>, VsockError>(VsockError::TxBufFlush(e)),
                Ok(n) => if n < self.tx_run_len() || self.tx_run_len() == self@.tx.len() {
                    r == Ok::<Option<Vec<u8>>, VsockError>(None)
                } else {
                    r is Ok && r->Ok_0 is Some && r->Ok_0->0@ == self@.tx.skip(
                        self.tx_run_len() as int,
                    )
                },
            },
    {
        let n: usize = match first {
            Ok(n) => n,
            Err(e) => return Err(VsockError::TxBufFlush(e)),
        };
        proof {
            self.tx_buf.lemma_run_len();
        }
        let run = self.tx_buf.first_run();
        if n < run.len() {
            return Ok(None);
        }
        let rest = self.tx_buf.second_run();
        if rest.len() == 0 {
            Ok(None)
        } else {
            Ok(Some(rest))
        }
    }

    /// Ends a flush whose first write took `first` bytes, with what came of the
    /// second write if there was one. That the second failed does not matter: its
    /// bytes stay. Says how many bytes were taken.
    pub fn flush_end(&mut self, first: usize, second: Option<Result<usize, IoError>>) -> (r: usize)
        requires
            old(self).wf(),
            first <= old(self).tx_run_len(),
            second matches Some(Ok(m)) ==> first == old(self).tx_run_len() && first + m <= old(
                self,
            )@.tx.len(),
        ensures
            final(self).wf(),
            r == first + second_taken(second),
            final(self)@ == old(self)@.flushed(r as nat),
    {
        proof {
            self.tx_buf.lemma_run_len();
        }
        let more: usize = match second {
            Some(Ok(m)) => m,
            _ => 0,
        };
        let n: usize = first + more;
        let _ = self.flush_tx_buf(Ok(n));
        n
    }

    /// Notes how many of the oldest bytes the host stream took, or that writing
    /// to it failed. Says how many they were.
    pub fn flush_tx_buf(&mut self, taken: Result<usize, IoError>) -> (r: Result<
        usize,
        VsockError,
    >)
        requires
            old(self).wf(),
            taken matches Ok(n) ==> n <= old(self)@.tx.len(),
        ensures
            final(self).wf(),
            match taken {
                Ok(n) => r == Ok::<usize, VsockError>(n) && final(self)@ == old(self)@.flushed(
                    n as nat,
                ),
                Err(e) => r == Err::<usize, VsockError>(VsockError::TxBufFlush(e)) && final(self)@
                    == old(self)@,
            },
    {
        let n: usize = match taken {
            Ok(n) => n,
            Err(e) => {
                return Err(VsockError::TxBufFlush(e));
            },
        };
        proof {
            self.tx_buf.lemma_run_len();
        }
        self.tx_buf.consume(n);
        self.fwd_cnt = self.fwd_cnt.wrapping_add(n as u32);
        let drained = self.tx_buf.is_empty();
        if self.state == ConnState::PeerClosed(true, true) && drained {
            self.pending_rx.insert(PendingRx::Rst);
        } else if self.peer_needs_credit_update() {
            self.pending_rx.insert(PendingRx::CreditUpdate);
        }
        Ok(n)
    }

    /// Takes out all bytes for the host stream.
    pub fn drain_tx(&mut self) -> (r: Vec<u8>)
        requires
            old(self).wf(),
        ensures
            final(self).wf(),
            r@ == old(self)@.tx,
            final(self)@ == old(self)@.flushed(old(self)@.tx.len()),
    {
        let (mut all, rest) = self.tx_runs();
        crate::bytes::push_bytes(&mut all, rest.as_slice());
        let n: usize = all.len();
        let _ = self.flush_tx_buf(Ok(n));
        all
    }

    /// Handles a packet of the guest with its payload.
    pub fn send_pkt(&mut self, pkt: &VsockPacket, payload: &[u8], now: u64) -> (r: Result<
        (),
        VsockError,
    >)
        requires
            old(self).wf(),
        ensures
            final(self).wf(),
            final(self)@ == old(self)@.sent(*pkt, payload@, now).0,
            match r {
                Ok(_) => old(self)@.sent(*pkt, payload@, now).1,
                Err(e) => e is TxBufFull && !old(self)@.sent(*pkt, payload@, now).1,
            },
    {
        self.peer_buf_alloc = pkt.buf_alloc;
        self.peer_fwd_cnt = pkt.fwd_cnt;
        if self.peer_avail_credit() > 0 && self.rx_buf.len() > 0 {
            self.pending_rx.insert(PendingRx::Rw);
        }
        assert(self@ == old(self)@.with_credit_from(*pkt));
        let no_recv = pkt.flags & VSOCK_FLAGS_SHUTDOWN_RCV != 0;
        let no_send = pkt.flags & VSOCK_FLAGS_SHUTDOWN_SEND != 0;
        let sends = match self.state {
            ConnState::Established => true,
            ConnState::PeerClosed(_, closed) => !closed,
            _ => false,
        };
        if pkt.op == VsockOp::Rw.code() && sends {
            if payload.len() == 0 {
                return Ok(());
            }
            match self.tx_buf.push(payload) {
                Ok(_) => {},
                Err(e) => return Err(e),
            }
            if self.peer_needs_credit_update() {
                self.pending_rx.insert(PendingRx::CreditUpdate);
            }
        } else if pkt.op == VsockOp::Response.code() {
            if self.state == ConnState::LocalInit {
                self.expiry = None;
                self.state = ConnState::Established;
            }
        } else if pkt.op == VsockOp::Shutdown.code() {
            match self.state {
                ConnState::Established => {
                    self.state = ConnState::PeerClosed(no_recv, no_send);
                    if no_recv && no_send {
                        if self.tx_buf.is_empty() {
                            self.pending_rx.insert(PendingRx::Rst);
                        } else {
                            self.expiry = Some(now.saturating_add(CONN_SHUTDOWN_TIMEOUT_MS));
                        }
                    }
                },
                ConnState::PeerClosed(was_no_recv, was_no_send) => {
                    // A side that was shut down once stays shut down.
                    let r = was_no_recv || no_recv;
                    let s = was_no_send || no_send;
                    self.state = ConnState::PeerClosed(r, s);
                    if r && s && self.tx_buf.is_empty() {
                        self.pending_rx.insert(PendingRx::Rst);
                    }
                },
                _ => {},
            }
        } else if pkt.op == VsockOp::CreditRequest.code() {
            if sends || self.state == ConnState::PeerInit {
                self.pending_rx.insert(PendingRx::CreditUpdate);
            }
        }
        Ok(())
    }

    /// Takes the next packet for the guest, with at most `max_data_len` bytes
    /// of payload.
    pub fn recv_pkt(&mut self, max_data_len: usize, now: u64) -> (r: Result<
        (VsockPacket, Vec<u8>),
        VsockError,
    >)
        requires
            old(self).wf(),
        ensures
            final(self).wf(),
            final(self)@ == old(self)@.received(max_data_len as nat, now).0,
            match r {
                Ok((pkt, payload)) => old(self)@.received(max_data_len as nat, now).1 == Some(
                    (pkt, payload@),
                ),
                Err(e) => e is NoData && old(self)@.received(max_data_len as nat, now).1 is None,
            },
    {
        let mut pkt = self.init_pkt();
        let none: Vec<u8> = Vec::new();
        if self.pending_rx.remove(PendingRx::Rst) {
            pkt.op = VsockOp::Rst.code();
            return Ok((pkt, none));
        }
        assert(self@.pending =~= old(self)@.pending);
        if self.pending_rx.remove(PendingRx::Response) {
            self.state = ConnState::Established;
            pkt.op = VsockOp::Response.code();
            return Ok((pkt, none));
        }
        assert(self@.pending =~= old(self)@.pending);
        if self.pending_rx.remove(PendingRx::Request) {
            self.expiry = Some(now.saturating_add(CONN_REQUEST_TIMEOUT_MS));
            pkt.op = VsockOp::Request.code();
            return Ok((pkt, none));
        }
        assert(self@.pending =~= old(self)@.pending);
        if self.pending_rx.remove(PendingRx::Rw) {
            return self.recv_data_pkt(pkt, max_data_len, now);
        }
        assert(self@.pending =~= old(self)@.pending);
        let owed = self.pending_rx.remove(PendingRx::CreditUpdate);
        proof {
            assert forall|x: PendingRx| !self@.pending.contains(x) by {
                match x {
                    PendingRx::Request => {},
                    PendingRx::Response => {},
                    PendingRx::Rst => {},
                    PendingRx::Rw => {},
                    PendingRx::CreditUpdate => {},
                }
            }
            assert(self@.pending =~= Set::<PendingRx>::empty());
            if !owed {
                assert(self@.pending =~= old(self)@.pending);
            }
        }
        if owed && !self.has_pending_rx() {
            pkt.op = VsockOp::CreditUpdate.code();
            self.last_fwd_cnt_to_peer = self.fwd_cnt;
            return Ok((pkt, none));
        }
        Err(VsockError::NoData)
    }

    fn recv_data_pkt(&mut self, pkt: VsockPacket, max_data_len: usize, now: u64) -> (r: Result<
        (VsockPacket, Vec<u8>),
        VsockError,
    >)
        requires
            old(self).wf(),
            pkt == old(self)@.header(0),
        ensures
            final(self).wf(),
            final(self)@ == old(self)@.received_data(max_data_len as nat, now).0,
            match r {
                Ok((pkt, payload)) => old(self)@.received_data(max_data_len as nat, now).1 == Some(
                    (pkt, payload@),
                ),
                Err(e) => e is NoData && old(self)@.received_data(
                    max_data_len as nat,
                    now,
                ).1 is None,
            },
    {
        let mut pkt = pkt;
        let none: Vec<u8> = Vec::new();
        match self.state {
            ConnState::Established | ConnState::PeerClosed(false, _) => {},
            ConnState::LocalInit | ConnState::PeerInit => {
                self.pending_rx.insert(PendingRx::Rw);
                return Err(VsockError::NoData);
            },
            _ => {
                pkt.op = VsockOp::Rst.code();
                return Ok((pkt, none));
            },
        }
        let credit: u32 = self.peer_avail_credit();
        if credit == 0 {
            self.last_fwd_cnt_to_peer = self.fwd_cnt;
            pkt.op = VsockOp::CreditRequest.code();
            self.pending_rx.insert(PendingRx::Rw);
            return Ok((pkt, none));
        }
        if self.rx_buf.len() == 0 {
            if self.host_closed {
                self.state = ConnState::LocalClosed;
                self.expiry = Some(now.saturating_add(CONN_SHUTDOWN_TIMEOUT_MS));
                pkt.op = VsockOp::Shutdown.code();
                pkt.flags = VSOCK_FLAGS_SHUTDOWN_RCV | VSOCK_FLAGS_SHUTDOWN_SEND;
                return Ok((pkt, none));
            }
            return Err(VsockError::NoData);
        }
        if max_data_len == 0 {
            self.pending_rx.insert(PendingRx::Rw);
            return Err(VsockError::NoData);
        }
        let fits: usize = if max_data_len < credit as usize {
            max_data_len
        } else {
            credit as usize
        };
        let n: usize = if fits < self.rx_buf.len() {
            fits
        } else {
            self.rx_buf.len()
        };
        let rest = self.rx_buf.split_off(n);
        let mut payload = rest;
        std::mem::swap(&mut self.rx_buf, &mut payload);
        pkt.op = VsockOp::Rw.code();
        pkt.len = n as u32;
        self.rx_cnt = self.rx_cnt.wrapping_add(n as u32);
        self.last_fwd_cnt_to_peer = self.fwd_cnt;
        if self.host_closed {
            self.pending_rx.insert(PendingRx::Rw);
        }
        Ok((pkt, payload))
    }

    /// How many bytes can go to the guest without overflowing the buffer that it
    /// advertised.
    pub fn peer_avail_credit(&self) -> (r: u32)
        ensures
            r == self@.credit(),
    {
        self.peer_buf_alloc.saturating_sub(self.rx_cnt.wrapping_sub(self.peer_fwd_cnt))
    }

    fn peer_needs_credit_update(&self) -> (r: bool)
        ensures
            r == self@.owes_credit_update(),
    {
        CONN_TX_BUF_SIZE.saturating_sub(self.fwd_cnt.wrapping_sub(self.last_fwd_cnt_to_peer))
            < CONN_CREDIT_UPDATE_THRESHOLD
    }

    fn init_pkt(&self) -> (r: VsockPacket)
        ensures
            r == self@.header(0),
    {
        VsockPacket {
            src_cid: self.local_cid,
            dst_cid: self.peer_cid,
            src_port: self.local_port,
            dst_port: self.peer_port,
            len: 0,
            pkt_type: VSOCK_TYPE_STREAM,
            op: 0,
            flags: 0,
            buf_alloc: CONN_TX_BUF_SIZE,
            fwd_cnt: self.fwd_cnt,
        }
    }
}

/// Bytes from the host reach the guest in order and none is lost: what a packet
/// carries is what stood first, and the rest stays.
pub proof fn law_delivery_in_order(c: ConnView, max: nat, now: u64)
    ensures
        match c.received(max, now).1 {
            Some((pkt, payload)) => payload + c.received(max, now).0.rx == c.rx,
            None => c.received(max, now).0.rx == c.rx,
        },
{
    match c.received(max, now).1 {
        Some((pkt, payload)) => {
            assert(payload + c.received(max, now).0.rx =~= c.rx);
        },
        None => {},
    }
}

/// No packet carries more bytes than the guest has room for or than were asked
/// for: with the bytes of a packet no more are in flight than the guest's buffer
/// holds. What a packet carries comes off the guest's room.
pub proof fn law_credit_is_kept(c: ConnView, max: nat, now: u64)
    ensures
        match c.received(max, now).1 {
            Some((pkt, payload)) => {
                &&& payload.len() <= c.credit()
                &&& payload.len() > 0 ==> c.in_flight() + payload.len() <= c.peer_buf_alloc
                &&& payload.len() <= max
                &&& c.received(max, now).0.in_flight() == c.in_flight() + payload.len()
                &&& c.received(max, now).0.credit() == c.credit() - payload.len()
                &&& payload.len() > 0 ==> pkt.op == VsockOp::Rw.spec_code() && pkt.len
                    == payload.len()
            },
            None => c.received(max, now).0.credit() == c.credit(),
        },
{
}

/// What a flush hands to the host stream are the oldest bytes in order: with `n`
/// bytes taken of the first run and, if that was all of it, `m` of the rest, the
/// stream has the first `n + m` and the others stay, and the counter that the
/// guest is told goes up by as many. The state stays, and if the guest has closed
/// both sides and nothing is left, a reset is the next packet.
pub proof fn law_flush_in_order(c: ConnView, run: nat, n: nat, m: nat, max: nat, now: u64)
    requires
        n <= run <= c.tx.len() <= CONN_TX_BUF_SIZE,
        m > 0 ==> n == run,
        n + m <= c.tx.len(),
    ensures
        ({
            let d = c.flushed(n + m);
            let taken = c.tx.subrange(0, run as int).take(n as int) + c.tx.skip(run as int).take(
                m as int,
            );
            &&& taken == c.tx.take((n + m) as int)
            &&& taken + d.tx == c.tx
            &&& d.fwd_cnt == wrap_add(c.fwd_cnt, (n + m) as u32)
            &&& d.state == c.state
            &&& c.state == ConnState::PeerClosed(true, true) && n + m == c.tx.len() ==> d.received(
                max,
                now,
            ).1 == Some((d.header(VsockOp::Rst.spec_code()), Seq::<u8>::empty()))
        }),
{
    let d = c.flushed(n + m);
    let taken = c.tx.subrange(0, run as int).take(n as int) + c.tx.skip(run as int).take(m as int);
    assert(taken =~= c.tx.take((n + m) as int));
    assert(taken + d.tx =~= c.tx);
}

/// A pending reset goes out before everything else.
pub proof fn law_reset_first(c: ConnView, max: nat, now: u64)
    requires
        c.pending.contains(PendingRx::Rst),
    ensures
        c.received(max, now).1 == Some(
            (c.header(VsockOp::Rst.spec_code()), Seq::<u8>::empty()),
        ),
{
}

/// Once the guest has shut down a side, no packet opens it again.
pub proof fn law_shutdown_is_sticky(c: ConnView, pkt: VsockPacket, payload: Seq<u8>, now: u64)
    requires
        c.state is PeerClosed,
    ensures
        ({
            let d = c.sent(pkt, payload, now).0;
            &&& d.state is PeerClosed
            &&& c.state->PeerClosed_0 ==> d.state->PeerClosed_0
            &&& c.state->PeerClosed_1 ==> d.state->PeerClosed_1
        }),
{
}

/// No packet of the guest revives a connection that was killed.
pub proof fn law_killed_stays_killed(c: ConnView, pkt: VsockPacket, payload: Seq<u8>, now: u64)
    requires
        c.state == ConnState::Killed,
    ensures
        c.sent(pkt, payload, now).0.state == ConnState::Killed,
{
}

/// Bytes from the guest are kept in order: a packet appends its payload or
/// leaves the buffer alone, and the buffer never grows past its capacity.
pub proof fn law_guest_bytes_in_order(c: ConnView, pkt: VsockPacket, payload: Seq<u8>, now: u64)
    requires
        c.tx.len() <= CONN_TX_BUF_SIZE,
    ensures
        ({
            let d = c.sent(pkt, payload, now).0;
            &&& d.tx == c.tx || d.tx == c.tx + payload
            &&& d.tx.len() <= CONN_TX_BUF_SIZE
        }),
{
}

/// Every guest packet sets the guest's room to what its header says: the size of
/// the buffer without the bytes that the guest has not taken in, or nothing if
/// they are more than that.
pub proof fn law_credit_follows_header(c: ConnView, pkt: VsockPacket, payload: Seq<u8>, now: u64)
    ensures
        c.sent(pkt, payload, now).0.credit() == room(
            pkt.buf_alloc,
            wrap_sub(c.rx_cnt, pkt.fwd_cnt),
        ),
{
}

/// A connection that the guest asked for is established by the first packet
/// that goes back, which is the response.
pub proof fn law_peer_handshake(
    local_cid: u64,
    peer_cid: u64,
    local_port: u32,
    peer_port: u32,
    buf_alloc: u32,
    max: nat,
    now: u64,
)
    ensures
        ({
            let c = ConnView::fresh(
                ConnState::PeerInit,
                local_cid,
                peer_cid,
                local_port,
                peer_port,
                buf_alloc,
                PendingRx::Response,
            );
            let (d, p) = c.received(max, now);
            &&& p == Some((c.header(VsockOp::Response.spec_code()), Seq::<u8>::empty()))
            &&& d.state == ConnState::Established
            &&& d.pending == Set::<PendingRx>::empty()
        }),
{
    assert(Set::<PendingRx>::empty().insert(PendingRx::Response).remove(PendingRx::Response)
        =~= Set::<PendingRx>::empty());
}

/// A connection that the host asks for first sends its request, and is
/// established by the guest's response.
pub proof fn law_local_handshake(
    local_cid: u64,
    peer_cid: u64,
    local_port: u32,
    peer_port: u32,
    pkt: VsockPacket,
    payload: Seq<u8>,
    max: nat,
    now: u64,
    then: u64,
)
    requires
        pkt.op == VsockOp::Response.spec_code(),
    ensures
        ({
            let c = ConnView::fresh(
                ConnState::LocalInit,
                local_cid,
                peer_cid,
                local_port,
                peer_port,
                0,
                PendingRx::Request,
            );
            let (d, p) = c.received(max, now);
            let (e, ok) = d.sent(pkt, payload, then);
            &&& p == Some((c.header(VsockOp::Request.spec_code()), Seq::<u8>::empty()))
            &&& d.state == ConnState::LocalInit
            &&& d.expiry == Some(later(now, CONN_REQUEST_TIMEOUT_MS))
            &&& ok
            &&& e.state == ConnState::Established
            &&& e.expiry is None
        }),
{
}

/// Data waits for the handshake: before the connection is established, no
/// packet carries any.
pub proof fn law_data_waits_for_handshake(c: ConnView, max: nat, now: u64)
    requires
        c.state == ConnState::LocalInit || c.state == ConnState::PeerInit,
    ensures
        c.received(max, now).0.rx == c.rx,
        c.received(max, now).1 matches Some((pkt, payload)) ==> payload.len() == 0,
        c.pending.contains(PendingRx::Rw) ==> c.received(max, now).0.pending.contains(
            PendingRx::Rw,
        ),
{
}

/// Whether the host stream is closed and the guest has yet to hear of it.
pub open spec fn closing(c: ConnView) -> bool {
    &&& c.host_closed
    &&& c.pending.contains(PendingRx::Rw)
    &&& (c.state == ConnState::Established || (c.state is PeerClosed && !c.state->PeerClosed_0))
}

/// After the host stream was closed, every packet for the guest leaves the
/// connection closing, until the one that shuts it down; and that one comes as
/// soon as all bytes are delivered and the guest has room.
pub proof fn law_close_reaches_guest(c: ConnView, max: nat, now: u64)
    requires
        closing(c),
        !c.pending.contains(PendingRx::Rst),
        !c.pending.contains(PendingRx::Response),
        !c.pending.contains(PendingRx::Request),
    ensures
        closing(c.received(max, now).0) || (c.received(max, now).0.state
            == ConnState::LocalClosed && c.received(max, now).1 is Some && c.received(
            max,
            now,
        ).1->Some_0.0.op == VsockOp::Shutdown.spec_code()),
        c.rx.len() == 0 && c.credit() > 0 ==> c.received(max, now).0.state
            == ConnState::LocalClosed,
{
}

} // verus!
