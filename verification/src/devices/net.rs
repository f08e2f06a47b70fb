//! The virtio network device.
//!
//! Ethernet frames travel behind a header of twelve bytes, which the device
//! strips from what the guest sends and puts, all zero, before what the guest
//! receives. The configuration space holds the MAC address.

use crate::memory::{GuestMemory, MemView, MemoryError};
use crate::text;
use crate::transport::{
    self, read_config_space, DescFault, DeviceType, QueueFault, VirtQueue, VirtioError, VirtqDesc,
};
use std::io::Error as IoError;
use vstd::prelude::*;

verus! {

/// Virtio feature: the device has a MAC address.
pub const VIRTIO_NET_F_MAC: u64 = 0x20;

/// Virtio feature: the device reports its link status.
pub const VIRTIO_NET_F_STATUS: u64 = 0x1_0000;

/// Virtio feature: modern virtio.
pub const VIRTIO_F_VERSION_1: u64 = 0x1_0000_0000;

/// Largest size of each queue.
pub const QUEUE_MAX_SIZE: u16 = 256;

/// Size of the header before each frame in bytes.
pub const VNET_HDR_SIZE: usize = 12;

/// Index of the queue from the host to the guest.
pub const RXQ: usize = 0;

/// Index of the queue from the guest to the host.
pub const TXQ: usize = 1;

/// Largest size of a frame in bytes.
pub const MAX_FRAME_SIZE: usize = 1514;

/// Errors of the network device.
#[derive(Debug)]
#[non_exhaustive]
pub enum NetError {
    /// Guest memory access error.
    Memory(MemoryError),
    /// Invalid virtqueue descriptor.
    InvalidDescriptor(String),
}

impl NetError {
    /// The text that describes the error.
    pub open spec fn spec_message(self) -> Seq<char> {
        match self {
            NetError::Memory(e) => "guest memory error: "@ + e.spec_message(),
            NetError::InvalidDescriptor(s) => "invalid descriptor: "@ + s@,
        }
    }

    /// The text that describes the error.
    pub fn message(&self) -> (r: String)
        ensures
            r@ == self.spec_message(),
    {
        match self {
            NetError::Memory(e) => text::behind("guest memory error: ", e.message().as_str()),
            NetError::InvalidDescriptor(s) => text::behind("invalid descriptor: ", s.as_str()),
        }
    }

    /// Whether the error reports this fault.
    pub open spec fn reports(self, f: QueueFault) -> bool {
        match f {
            QueueFault::Memory(e) => self == NetError::Memory(e),
            QueueFault::Descriptor(d) => self matches NetError::InvalidDescriptor(s) && s@
                == d.spec_text(),
        }
    }

    /// The error that reports a fault.
    pub fn from_fault(f: QueueFault) -> (r: NetError)
        ensures
            r.reports(f),
    {
        match f {
            QueueFault::Memory(e) => NetError::Memory(e),
            QueueFault::Descriptor(d) => NetError::InvalidDescriptor(d.text()),
        }
    }
}

/// The frame that an attempt to receive gave, if it gave one.
pub open spec fn frame_of(r: Result<usize, IoError>, buf: Seq<u8>) -> Option<Seq<u8>> {
    match r {
        Ok(n) => if 0 < n <= buf.len() {
            Some(buf.subrange(0, n as int))
        } else {
            None
        },
        Err(_) => None,
    }
}

/// Frames in the order in which they were handed over, as a model.
pub type Frames = Seq<Seq<u8>>;

/// What attempts to receive gave, in order, as a model.
pub type Attempts = Seq<Option<Seq<u8>>>;

/// Sends and receives ethernet frames.
///
/// Two logs say what was handed over: they only name what the calls were given
/// and what they returned.
pub trait PacketIo: Send {
    /// The frames that were handed over for sending, in order.
    spec fn sent(&self) -> Frames;

    /// What each attempt to receive gave, in order.
    spec fn received(&self) -> Attempts;

    /// Sends a frame.
    fn send(&mut self, buf: &[u8]) -> (r: Result<usize, IoError>)
        ensures
            final(self).sent() == old(self).sent().push(buf@),
            final(self).received() == old(self).received(),
    ;

    /// Receives a frame into `buf` if one is there, and says how long it is.
    fn try_recv(&mut self, buf: &mut [u8]) -> (r: Result<usize, IoError>)
        ensures
            final(self).sent() == old(self).sent(),
            final(self).received() == old(self).received().push(frame_of(r, final(buf)@)),
            final(buf)@.len() == old(buf)@.len(),
    ;
}

/// The bytes of the chain that goes on from descriptor `d`, the `visited`th,
/// which all must lie in guest memory.
pub open spec fn chain_bytes(m: MemView, q: VirtQueue, d: VirtqDesc, visited: nat) -> Option<
    Seq<u8>,
>
    decreases q.size - visited,
{
    match m.read(d.addr, d.len as usize) {
        Err(_) => None,
        Ok(b) => if !d.spec_has_next() {
            Some(b)
        } else if visited >= q.size {
            None
        } else {
            match q.desc(m, d.next) {
                Err(_) => None,
                Ok(n) => match chain_bytes(m, q, n, visited + 1) {
                    None => None,
                    Some(rest) => Some(b + rest),
                },
            }
        },
    }
}

/// The frame in the chain that starts at `head`: all behind the header. There is
/// none if the chain is malformed or holds no more than the header.
pub open spec fn tx_frame(m: MemView, q: VirtQueue, head: u16) -> Option<Seq<u8>> {
    match q.desc(m, head) {
        Err(_) => None,
        Ok(d) => match chain_bytes(m, q, d, 1) {
            None => None,
            Some(b) => if b.len() <= VNET_HDR_SIZE {
                None
            } else {
                Some(b.skip(VNET_HDR_SIZE as int))
            },
        },
    }
}

/// What working on a queue leaves behind.
#[verifier::ext_equal]
pub struct RunView {
    pub mem: MemView,
    pub queue: VirtQueue,
    /// The frames that were handed over for sending.
    pub frames: Seq<Seq<u8>>,
    /// Whether anything was handled, or what stopped the work.
    pub result: Result<bool, QueueFault>,
}

/// Takes every chain up to `avail` from the transmit queue: sends its frame and
/// gives the chain back.
pub open spec fn tx_run(
    m: MemView,
    q: VirtQueue,
    frames: Seq<Seq<u8>>,
    avail: u16,
    processed: bool,
) -> RunView
    decreases transport::ring_distance(q.last_avail_idx, avail),
{
    if q.last_avail_idx == avail {
        RunView { mem: m, queue: q, frames, result: Ok(processed) }
    } else {
        match q.avail_head(m) {
            Err(e) => RunView { mem: m, queue: q, frames, result: Err(QueueFault::Memory(e)) },
            Ok(head) => {
                let after = match tx_frame(m, q, head) {
                    Some(f) => frames.push(f),
                    None => frames,
                };
                let (m1, r) = q.put_used(m, head, 0);
                match r {
                    Err(e) => RunView {
                        mem: m1,
                        queue: q,
                        frames: after,
                        result: Err(QueueFault::Memory(e)),
                    },
                    Ok(_) => tx_run(m1, q.advanced(), after, avail, true),
                }
            },
        }
    }
}

/// Shows the driver how far the used ring is filled, if anything was handled.
pub open spec fn published(r: RunView) -> RunView {
    match r.result {
        Ok(true) => {
            let (m, w) = r.queue.put_used_idx(r.mem);
            match w {
                Ok(_) => RunView { mem: m, ..r },
                Err(e) => RunView { mem: m, result: Err(QueueFault::Memory(e)), ..r },
            }
        },
        _ => r,
    }
}

/// Handles all that waits in the transmit queue, after `frames` were sent.
pub open spec fn tx_processed(m: MemView, q: VirtQueue, frames: Seq<Seq<u8>>) -> RunView {
    if !q.usable() {
        RunView { mem: m, queue: q, frames, result: Ok(false) }
    } else {
        match q.avail_idx(m) {
            Err(e) => RunView { mem: m, queue: q, frames, result: Err(QueueFault::Memory(e)) },
            Ok(avail) => published(tx_run(m, q, frames, avail, false)),
        }
    }
}

/// Stores `rest` into the chain that goes on from descriptor `d`, behind
/// `visited` others, as far as it has room. Leaves the memory and how many bytes
/// were stored.
pub open spec fn chain_stored(
    m: MemView,
    q: VirtQueue,
    d: VirtqDesc,
    rest: Seq<u8>,
    visited: nat,
    written: u32,
) -> (MemView, Result<u32, QueueFault>)
    decreases q.size - visited,
{
    if visited >= q.size {
        (m, Err(QueueFault::Descriptor(DescFault::Cycle)))
    } else {
        let n = if rest.len() < d.len {
            rest.len() as int
        } else {
            d.len as int
        };
        let (m1, w) = if n > 0 {
            m.write(d.addr, rest.subrange(0, n))
        } else {
            (m, Ok(()))
        };
        match w {
            Err(e) => (m1, Err(QueueFault::Memory(e))),
            Ok(_) => if n == rest.len() || !d.spec_has_next() {
                (m1, Ok(transport::sat_add(written, n)))
            } else {
                match q.desc(m1, d.next) {
                    Err(f) => (m1, Err(f)),
                    Ok(next) => chain_stored(
                        m1,
                        q,
                        next,
                        rest.skip(n),
                        visited + 1,
                        transport::sat_add(written, n),
                    ),
                }
            },
        }
    }
}

/// A frame as the guest receives it: behind a header of zeros.
pub open spec fn with_header(frame: Seq<u8>) -> Seq<u8> {
    Seq::new(VNET_HDR_SIZE as nat, |i: int| 0u8) + frame
}

/// What became of a received frame.
#[verifier::ext_equal]
pub enum Delivery {
    /// The guest has it.
    Done,
    /// The guest's next chain has no room for it.
    NoRoom,
    Failed(QueueFault),
}

/// Stores a received frame into the next chain of the receive queue.
#[verifier::opaque]
pub open spec fn delivered(m: MemView, q: VirtQueue, frame: Seq<u8>) -> (
    MemView,
    VirtQueue,
    Delivery,
) {
    match q.avail_head(m) {
        Err(e) => (m, q, Delivery::Failed(QueueFault::Memory(e))),
        Ok(head) => match q.desc(m, head) {
            Err(f) => (m, q, Delivery::Failed(f)),
            Ok(d) => if !d.spec_writable() {
                (m, q, Delivery::NoRoom)
            } else {
                let (m1, r) = chain_stored(m, q, d, with_header(frame), 0, 0);
                match r {
                    Err(f) => (m1, q, Delivery::Failed(f)),
                    Ok(written) => if written == 0 {
                        (m1, q, Delivery::NoRoom)
                    } else {
                        let (m2, w) = q.put_used(m1, head, written);
                        match w {
                            Err(e) => (m2, q, Delivery::Failed(QueueFault::Memory(e))),
                            Ok(_) => (m2, q.advanced(), Delivery::Done),
                        }
                    },
                }
            },
        },
    }
}

/// Fills the chains up to `avail` of the receive queue with the frames that the
/// attempts to receive gave, until one gave none or finds no room.
pub open spec fn rx_run(
    m: MemView,
    q: VirtQueue,
    attempts: Seq<Option<Seq<u8>>>,
    avail: u16,
    processed: bool,
) -> RunView
    decreases attempts.len(),
{
    let stop = RunView { mem: m, queue: q, frames: Seq::empty(), result: Ok(processed) };
    if q.last_avail_idx == avail || attempts.len() == 0 || attempts[0] is None {
        stop
    } else {
        let (m1, q1, d) = delivered(m, q, attempts[0]->Some_0);
        match d {
            Delivery::Done => rx_run(m1, q1, attempts.skip(1), avail, true),
            Delivery::NoRoom => RunView { mem: m1, ..stop },
            Delivery::Failed(f) => RunView { mem: m1, result: Err(f), ..stop },
        }
    }
}

/// Whether the attempts to receive are those that filling the chains up to
/// `avail` takes: one for each chain, up to the first that gave no frame or
/// whose frame the guest did not get.
pub open spec fn rx_complete(
    m: MemView,
    q: VirtQueue,
    attempts: Seq<Option<Seq<u8>>>,
    avail: u16,
) -> bool
    decreases attempts.len(),
{
    if q.last_avail_idx == avail {
        attempts.len() == 0
    } else {
        attempts.len() > 0 && match attempts[0] {
            None => attempts.len() == 1,
            Some(frame) => {
                let (m1, q1, d) = delivered(m, q, frame);
                if d is Done {
                    rx_complete(m1, q1, attempts.skip(1), avail)
                } else {
                    attempts.len() == 1
                }
            },
        }
    }
}

/// Whether the attempts to receive are those that a notification takes: none
/// where there is no chain to fill.
pub open spec fn rx_due(m: MemView, q: VirtQueue, attempts: Seq<Option<Seq<u8>>>) -> bool {
    if !q.usable() {
        attempts.len() == 0
    } else {
        match q.avail_idx(m) {
            Err(_) => attempts.len() == 0,
            Ok(avail) => rx_complete(m, q, attempts, avail),
        }
    }
}

/// Fills the receive queue with what the attempts to receive gave.
pub open spec fn rx_processed(m: MemView, q: VirtQueue, attempts: Seq<Option<Seq<u8>>>) -> RunView {
    let stop = RunView { mem: m, queue: q, frames: Seq::empty(), result: Ok(false) };
    if !q.usable() {
        stop
    } else {
        match q.avail_idx(m) {
            Err(e) => RunView { result: Err(QueueFault::Memory(e)), ..stop },
            Ok(avail) => published(rx_run(m, q, attempts, avail, false)),
        }
    }
}

/// What a network device is.
#[verifier::ext_equal]
pub struct NetView {
    pub mac_addr: Seq<u8>,
    pub acked_features: u64,
    pub queues: Seq<VirtQueue>,
    pub activated: bool,
    /// The logs of the backend, if there is one.
    pub io: Option<IoView>,
}

/// The logs of a backend.
#[verifier::ext_equal]
pub struct IoView {
    pub sent: Seq<Seq<u8>>,
    pub received: Seq<Option<Seq<u8>>>,
}

/// Whether a notification of queue `idx` leads from device `d` and memory `m` to
/// device `e` and memory `n`, and says `did`. A device without a backend does
/// nothing. On the receive side, what the backend gave is read off its log, and
/// the backend was asked as often as there were chains to fill, unless it had no
/// more or a frame did not get through.
pub open spec fn notified(d: NetView, m: MemView, idx: usize, e: NetView, n: MemView, did: bool) -> bool {
    if d.io is None || (idx != RXQ && idx != TXQ) {
        e == d && n == m && !did
    } else if idx == TXQ {
        let run = tx_processed(m, d.queues[TXQ as int], d.io->Some_0.sent);
        &&& n == run.mem
        &&& did == done(run.result)
        &&& e == (NetView {
            io: Some(IoView { sent: run.frames, ..d.io->Some_0 }),
            queues: d.queues.update(
                TXQ as int,
                d.queues[TXQ as int].with_positions(run.queue),
            ),
            ..d
        })
    } else {
        let before = d.io->Some_0.received;
        let after = e.io->Some_0.received;
        let run = rx_processed(m, d.queues[RXQ as int], after.skip(before.len() as int));
        &&& e.io is Some
        &&& before.len() <= after.len()
        &&& after.subrange(0, before.len() as int) == before
        &&& rx_due(m, d.queues[RXQ as int], after.skip(before.len() as int))
        &&& n == run.mem
        &&& did == done(run.result)
        &&& e == (NetView {
            io: Some(IoView { received: after, ..d.io->Some_0 }),
            queues: d.queues.update(
                RXQ as int,
                d.queues[RXQ as int].with_positions(run.queue),
            ),
            ..d
        })
    }
}

/// The result of a run as the transport sees it: faults count as nothing done.
pub open spec fn done(r: Result<bool, QueueFault>) -> bool {
    match r {
        Ok(b) => b,
        Err(_) => false,
    }
}

/// The logs of a backend.
pub open spec fn io_view(io: Option<Box<dyn PacketIo>>) -> Option<IoView> {
    match io {
        Some(b) => Some(IoView { sent: b.sent(), received: b.received() }),
        None => None,
    }
}

/// The virtio network device.
pub struct NetDevice {
    mac_addr: [u8; 6],
    acked_features: u64,
    queues: [VirtQueue; 2],
    activated: bool,
    packet_io: Option<Box<dyn PacketIo>>,
}

impl View for NetDevice {
    type V = NetView;

    closed spec fn view(&self) -> NetView {
        NetView {
            mac_addr: self.mac_addr@,
            acked_features: self.acked_features,
            queues: self.queues@,
            activated: self.activated,
            io: io_view(self.packet_io),
        }
    }
}

/// A received frame, as the log has it.
pub open spec fn event_of(got: Option<Vec<u8>>) -> Option<Seq<u8>> {
    match got {
        Some(v) => Some(v@),
        None => None,
    }
}

impl NetDevice {
    /// Creates a device without a backend.
    pub fn new(mac_addr: [u8; 6]) -> (r: Self)
        ensures
            r@ == (NetView {
                mac_addr: mac_addr@,
                acked_features: 0,
                queues: Seq::new(2, |i: int| VirtQueue::spec_new(QUEUE_MAX_SIZE)),
                activated: false,
                io: None,
            }),
    {
        let q = VirtQueue::new(QUEUE_MAX_SIZE);
        let r = NetDevice {
            mac_addr,
            acked_features: 0,
            queues: [q, q],
            activated: false,
            packet_io: None,
        };
        assert(r.queues@ =~= Seq::new(2, |i: int| VirtQueue::spec_new(QUEUE_MAX_SIZE)));
        r
    }

    /// Creates a device with a backend.
    pub fn with_packet_io(mac_addr: [u8; 6], io: Box<dyn PacketIo>) -> (r: Self)
        ensures
            r@ == (NetView {
                mac_addr: mac_addr@,
                acked_features: 0,
                queues: Seq::new(2, |i: int| VirtQueue::spec_new(QUEUE_MAX_SIZE)),
                activated: false,
                io: io_view(Some(io)),
            }),
    {
        let mut dev = NetDevice::new(mac_addr);
        dev.packet_io = Some(io);
        dev
    }

    /// The default MAC address: locally administered, with the letters `VIS`.
    pub fn generate_mac() -> (r: [u8; 6])
        ensures
            r@ == seq![0x02u8, 0x56, 0x49, 0x53, 0x00, 0x01],
    {
        let r: [u8; 6] = [0x02, 0x56, 0x49, 0x53, 0x00, 0x01];
        assert(r@ =~= seq![0x02u8, 0x56, 0x49, 0x53, 0x00, 0x01]);
        r
    }

    /// The MAC address.
    pub fn mac_addr(&self) -> (r: &[u8; 6])
        ensures
            r@ == self@.mac_addr,
    {
        &self.mac_addr
    }

    /// Reads the frame in the chain that starts at `head_idx`.
    pub fn read_tx_frame(memory: &GuestMemory, queue: &VirtQueue, head_idx: u16) -> (r: Option<
        Vec<u8>,
    >)
        ensures
            match r {
                Some(v) => tx_frame(memory@, *queue, head_idx) == Some(v@),
                None => tx_frame(memory@, *queue, head_idx) is None,
            },
    {
        let first = match queue.read_desc(memory, head_idx) {
            Ok(d) => d,
            Err(_) => return None,
        };
        let mut data: Vec<u8> = Vec::new();
        let mut current = first;
        let mut visited: u32 = 1;
        loop
            invariant
                visited >= 1,
                visited <= queue.size,
                match chain_bytes(memory@, *queue, current, visited as nat) {
                    Some(rest) => chain_bytes(memory@, *queue, first, 1) == Some(data@ + rest),
                    None => chain_bytes(memory@, *queue, first, 1) is None,
                },
                queue.desc(memory@, head_idx) == Ok::<VirtqDesc, QueueFault>(first),
            decreases queue.size - visited,
        {
            let part = match memory.read_bytes(current.addr, current.len as usize) {
                Ok(b) => b,
                Err(_) => return None,
            };
            let ghost before = data@;
            crate::bytes::push_bytes(&mut data, part.as_slice());
            if !current.has_next() {
                if data.len() <= VNET_HDR_SIZE {
                    return None;
                }
                return Some(data.split_off(VNET_HDR_SIZE));
            }
            if visited >= queue.size as u32 {
                return None;
            }
            let next = match queue.read_desc(memory, current.next) {
                Ok(d) => d,
                Err(_) => return None,
            };
            proof {
                match chain_bytes(memory@, *queue, next, (visited + 1) as nat) {
                    Some(rest) => {
                        assert(before + (part@ + rest) =~= data@ + rest);
                    },
                    None => {},
                }
            }
            visited = visited + 1;
            current = next;
        }
    }

    /// Sends the frame in the chain that starts at `head_idx`.
    fn handle_tx_chain(&mut self, memory: &GuestMemory, queue: &VirtQueue, head_idx: u16)
        requires
            old(self)@.io is Some,
        ensures
            final(self)@ == (NetView {
                io: Some(
                    IoView {
                        sent: match tx_frame(memory@, *queue, head_idx) {
                            Some(f) => old(self)@.io->Some_0.sent.push(f),
                            None => old(self)@.io->Some_0.sent,
                        },
                        received: old(self)@.io->Some_0.received,
                    },
                ),
                ..old(self)@
            }),
    {
        match Self::read_tx_frame(memory, queue, head_idx) {
            Some(frame) => match &mut self.packet_io {
                Some(io) => {
                    let _ = io.send(frame.as_slice());
                },
                None => {},
            },
            None => {},
        }
    }

    /// Sends all that waits in the transmit queue.
    fn process_tx_queue(&mut self, memory: &mut GuestMemory, queue: &mut VirtQueue) -> (r: Result<
        bool,
        NetError,
    >)
        requires
            old(self)@.io is Some,
        ensures
            ({
                let run = tx_processed(
                    old(memory)@,
                    *old(queue),
                    old(self)@.io->Some_0.sent,
                );
                &&& final(memory)@ == run.mem
                &&& *final(queue) == run.queue
                &&& final(self)@ == (NetView {
                    io: Some(IoView { sent: run.frames, ..old(self)@.io->Some_0 }),
                    ..old(self)@
                })
                &&& match r {
                    Ok(b) => run.result == Ok::<bool, QueueFault>(b),
                    Err(e) => run.result is Err && e.reports(run.result->Err_0),
                }
            }),
    {
        if !queue.is_usable() {
            return Ok(false);
        }
        let avail: u16 = match queue.read_avail_idx(memory) {
            Ok(v) => v,
            Err(e) => return Err(NetError::from_fault(QueueFault::Memory(e))),
        };
        let mut processed = false;
        while queue.last_avail_idx != avail
            invariant
                queue.size != 0,
                self@.io is Some,
                self@ == (NetView {
                    io: Some(IoView { sent: self@.io->Some_0.sent, ..old(self)@.io->Some_0 }),
                    ..old(self)@
                }),
                tx_run(memory@, *queue, self@.io->Some_0.sent, avail, processed) == tx_run(
                    old(memory)@,
                    *old(queue),
                    old(self)@.io->Some_0.sent,
                    avail,
                    false,
                ),
                old(queue).usable(),
                old(queue).avail_idx(old(memory)@) == Ok::<u16, MemoryError>(avail),
            decreases transport::ring_distance(queue.last_avail_idx, avail),
        {
            proof {
                transport::lemma_ring_step(queue.last_avail_idx, avail);
            }
            let head: u16 = match queue.read_avail_head(memory) {
                Ok(v) => v,
                Err(e) => return Err(NetError::from_fault(QueueFault::Memory(e))),
            };
            self.handle_tx_chain(memory, queue, head);
            match queue.write_used(memory, head, 0) {
                Ok(_) => {},
                Err(e) => return Err(NetError::from_fault(QueueFault::Memory(e))),
            }
            queue.advance();
            processed = true;
        }
        if processed {
            match queue.write_used_idx(memory) {
                Ok(_) => {},
                Err(e) => return Err(NetError::from_fault(QueueFault::Memory(e))),
            }
        }
        Ok(processed)
    }

    /// Stores a frame behind its header into the chain that starts at `first`.
    fn write_rx_chain(
        memory: &mut GuestMemory,
        queue: &VirtQueue,
        first: &VirtqDesc,
        frame: &[u8],
    ) -> (r: Result<u32, QueueFault>)
        ensures
            (final(memory)@, r) == chain_stored(
                old(memory)@,
                *queue,
                *first,
                with_header(frame@),
                0,
                0,
            ),
    {
        let mut rest = crate::bytes::zero_vec(VNET_HDR_SIZE);
        crate::bytes::push_bytes(&mut rest, frame);
        assert(rest@ =~= with_header(frame@));
        let mut desc = *first;
        let mut visited: u32 = 0;
        let mut written: u32 = 0;
        loop
            invariant
                visited <= queue.size,
                chain_stored(memory@, *queue, desc, rest@, visited as nat, written)
                    == chain_stored(old(memory)@, *queue, *first, with_header(frame@), 0, 0),
            decreases queue.size - visited,
        {
            if visited >= queue.size as u32 {
                return Err(QueueFault::Descriptor(DescFault::Cycle));
            }
            visited = visited + 1;
            let n: usize = if rest.len() < desc.len as usize {
                rest.len()
            } else {
                desc.len as usize
            };
            let ghost all = rest@;
            let tail = rest.split_off(n);
            assert(tail@ == all.skip(n as int));
            if n > 0 {
                match memory.write_bytes(desc.addr, rest.as_slice()) {
                    Ok(_) => {},
                    Err(e) => return Err(QueueFault::Memory(e)),
                }
            }
            written = written.saturating_add(n as u32);
            rest = tail;
            if rest.len() == 0 || !desc.has_next() {
                return Ok(written);
            }
            desc = match queue.read_desc(memory, desc.next) {
                Ok(d) => d,
                Err(f) => return Err(f),
            };
        }
    }

    /// Stores a received frame into the next chain of the receive queue. Gives
    /// whether the guest has it now; it may have no room for it.
    pub fn deliver(memory: &mut GuestMemory, queue: &mut VirtQueue, frame: &[u8]) -> (r: Result<
        bool,
        QueueFault,
    >)
        requires
            old(queue).size != 0,
        ensures
            ({
                let (m, q, d) = delivered(old(memory)@, *old(queue), frame@);
                &&& final(memory)@ == m
                &&& *final(queue) == q
                &&& match d {
                    Delivery::Done => r == Ok::<bool, QueueFault>(true) && q
                        == old(queue).advanced(),
                    Delivery::NoRoom => r == Ok::<bool, QueueFault>(false) && q == *old(queue),
                    Delivery::Failed(f) => r == Err::<bool, QueueFault>(f) && q == *old(queue),
                }
            }),
    {
        proof {
            reveal(delivered);
        }
        let head: u16 = match queue.read_avail_head(memory) {
            Ok(v) => v,
            Err(e) => return Err(QueueFault::Memory(e)),
        };
        let desc = match queue.read_desc(memory, head) {
            Ok(d) => d,
            Err(f) => return Err(f),
        };
        if !desc.is_writable() {
            return Ok(false);
        }
        let written: u32 = match Self::write_rx_chain(memory, queue, &desc, frame) {
            Ok(n) => n,
            Err(f) => return Err(f),
        };
        if written == 0 {
            return Ok(false);
        }
        match queue.write_used(memory, head, written) {
            Ok(_) => {},
            Err(e) => return Err(QueueFault::Memory(e)),
        }
        queue.advance();
        Ok(true)
    }

    /// Attempts to receive one frame.
    fn receive(&mut self) -> (r: Option<Vec<u8>>)
        requires
            old(self)@.io is Some,
        ensures
            final(self)@ == (NetView {
                io: Some(
                    IoView {
                        sent: old(self)@.io->Some_0.sent,
                        received: old(self)@.io->Some_0.received.push(event_of(r)),
                    },
                ),
                ..old(self)@
            }),
    {
        let mut buf = crate::bytes::zero_vec(MAX_FRAME_SIZE);
        match &mut self.packet_io {
            Some(io) => match io.try_recv(buf.as_mut_slice()) {
                Ok(n) => {
                    if n == 0 || n > buf.len() {
                        None
                    } else {
                        Some(crate::bytes::prefix_vec(buf.as_slice(), n))
                    }
                },
                Err(_) => None,
            },
            None => None,
        }
    }

    /// Fills the receive queue with frames as long as the backend has any.
    fn process_rx_queue(&mut self, memory: &mut GuestMemory, queue: &mut VirtQueue) -> (r: Result<
        bool,
        NetError,
    >)
        requires
            old(self)@.io is Some,
        ensures
            final(self)@.io is Some,
            ({
                let before = old(self)@.io->Some_0.received;
                let after = final(self)@.io->Some_0.received;
                let run = rx_processed(
                    old(memory)@,
                    *old(queue),
                    after.skip(before.len() as int),
                );
                &&& before.len() <= after.len()
                &&& after.subrange(0, before.len() as int) == before
                &&& rx_due(old(memory)@, *old(queue), after.skip(before.len() as int))
                &&& final(self)@ == (NetView {
                    io: Some(IoView { received: after, ..old(self)@.io->Some_0 }),
                    ..old(self)@
                })
                &&& final(memory)@ == run.mem
                &&& *final(queue) == run.queue
                &&& match r {
                    Ok(b) => run.result == Ok::<bool, QueueFault>(b),
                    Err(e) => run.result is Err && e.reports(run.result->Err_0),
                }
            }),
    {
        let ghost before = self@.io->Some_0.received;
        let ghost mut done: Seq<Option<Seq<u8>>> = Seq::empty();
        if !queue.is_usable() {
            assert(before.skip(before.len() as int) =~= Seq::<Option<Seq<u8>>>::empty());
            return Ok(false);
        }
        let avail: u16 = match queue.read_avail_idx(memory) {
            Ok(v) => v,
            Err(e) => return Err(NetError::from_fault(QueueFault::Memory(e))),
        };
        let mut processed = false;
        let ghost m0 = memory@;
        let ghost q0 = *queue;
        assert(before + done =~= before);
        assert forall|tail: Seq<Option<Seq<u8>>>| #[trigger]
            rx_run(m0, q0, done + tail, avail, false) == rx_run(m0, q0, tail, avail, false) by {
            assert(done + tail =~= tail);
        }
        assert forall|tail: Seq<Option<Seq<u8>>>| #[trigger]
            rx_complete(m0, q0, done + tail, avail) == rx_complete(m0, q0, tail, avail) by {
            assert(done + tail =~= tail);
        }
        loop
            invariant_except_break
                queue.size != 0,
                m0 == old(memory)@,
                q0 == *old(queue),
                before == old(self)@.io->Some_0.received,
                self@.io is Some,
                self@.io->Some_0.received == before + done,
                self@ == (NetView {
                    io: Some(
                        IoView { received: self@.io->Some_0.received, ..old(self)@.io->Some_0 },
                    ),
                    ..old(self)@
                }),
                forall|tail: Seq<Option<Seq<u8>>>| #[trigger]
                    rx_run(m0, q0, done + tail, avail, false) == rx_run(
                        memory@,
                        *queue,
                        tail,
                        avail,
                        processed,
                    ),
                forall|tail: Seq<Option<Seq<u8>>>| #[trigger]
                    rx_complete(m0, q0, done + tail, avail) == rx_complete(
                        memory@,
                        *queue,
                        tail,
                        avail,
                    ),
                q0.usable(),
                q0.avail_idx(m0) == Ok::<u16, MemoryError>(avail),
            ensures
                rx_complete(m0, q0, done, avail),
                m0 == old(memory)@,
                q0 == *old(queue),
                before == old(self)@.io->Some_0.received,
                self@.io is Some,
                self@.io->Some_0.received == before + done,
                self@ == (NetView {
                    io: Some(
                        IoView { received: self@.io->Some_0.received, ..old(self)@.io->Some_0 },
                    ),
                    ..old(self)@
                }),
                rx_run(m0, q0, done, avail, false) == (RunView {
                    mem: memory@,
                    queue: *queue,
                    frames: Seq::empty(),
                    result: Ok(processed),
                }),
                q0.usable(),
                q0.avail_idx(m0) == Ok::<u16, MemoryError>(avail),
            decreases transport::ring_distance(queue.last_avail_idx, avail),
        {
            let ghost none = Seq::<Option<Seq<u8>>>::empty();
            if queue.last_avail_idx == avail {
                proof {
                    assert(done + none =~= done);
                    assert(rx_run(m0, q0, done + none, avail, false) == rx_run(
                        memory@,
                        *queue,
                        none,
                        avail,
                        processed,
                    ));
                    assert(rx_complete(m0, q0, done + none, avail) == rx_complete(
                        memory@,
                        *queue,
                        none,
                        avail,
                    ));
                }
                break ;
            }
            let got = self.receive();
            let ghost m = memory@;
            let ghost q = *queue;
            let ghost event = event_of(got);
            let ghost earlier = done;
            proof {
                transport::lemma_ring_step(queue.last_avail_idx, avail);
                done = earlier.push(event);
                assert(self@.io->Some_0.received =~= before + done);
                assert(earlier + seq![event] =~= done);
                assert(rx_run(m0, q0, earlier + seq![event], avail, false) == rx_run(
                    m,
                    q,
                    seq![event],
                    avail,
                    processed,
                ));
                assert(rx_complete(m0, q0, earlier + seq![event], avail) == rx_complete(
                    m,
                    q,
                    seq![event],
                    avail,
                ));
                assert(seq![event].skip(1) =~= none);
                assert((before + done).skip(before.len() as int) =~= done);
                assert((before + done).subrange(0, before.len() as int) =~= before);
            }
            let frame = match got {
                Some(f) => f,
                None => {
                    break ;
                },
            };
            match Self::deliver(memory, queue, frame.as_slice()) {
                Ok(true) => {
                    proof {
                        assert forall|tail: Seq<Option<Seq<u8>>>| #[trigger]
                            rx_run(m0, q0, done + tail, avail, false) == rx_run(
                                memory@,
                                *queue,
                                tail,
                                avail,
                                true,
                            ) by {
                            let whole = seq![event] + tail;
                            assert(done + tail =~= earlier + whole);
                            assert(rx_run(m0, q0, earlier + whole, avail, false) == rx_run(
                                m,
                                q,
                                whole,
                                avail,
                                processed,
                            ));
                            assert(whole.skip(1) =~= tail);
                        }
                        assert forall|tail: Seq<Option<Seq<u8>>>| #[trigger]
                            rx_complete(m0, q0, done + tail, avail) == rx_complete(
                                memory@,
                                *queue,
                                tail,
                                avail,
                            ) by {
                            let whole = seq![event] + tail;
                            assert(done + tail =~= earlier + whole);
                            assert(rx_complete(m0, q0, earlier + whole, avail) == rx_complete(
                                m,
                                q,
                                whole,
                                avail,
                            ));
                            assert(whole.skip(1) =~= tail);
                        }
                    }
                    processed = true;
                },
                Ok(false) => {
                    break ;
                },
                Err(f) => return Err(NetError::from_fault(f)),
            }
        }
        proof {
            assert((before + done).skip(before.len() as int) =~= done);
            assert((before + done).subrange(0, before.len() as int) =~= before);
        }
        if processed {
            match queue.write_used_idx(memory) {
                Ok(_) => {},
                Err(e) => return Err(NetError::from_fault(QueueFault::Memory(e))),
            }
        }
        Ok(processed)
    }

    /// Handles a notification of queue `queue_idx`, and says whether anything
    /// was done. What goes wrong counts as nothing done.
    pub fn process_queue(&mut self, queue_idx: usize, memory: &mut GuestMemory) -> (r: Result<
        bool,
        VirtioError,
    >)
        ensures
            r is Ok,
            notified(
                old(self)@,
                old(memory)@,
                queue_idx,
                final(self)@,
                final(memory)@,
                r->Ok_0,
            ),
    {
        if self.packet_io.is_none() {
            return Ok(false);
        }
        if queue_idx == TXQ {
            let mut queue = self.queues[TXQ];
            let result = self.process_tx_queue(memory, &mut queue);
            let mut q = self.queues[TXQ];
            q.last_avail_idx = queue.last_avail_idx;
            q.last_used_idx = queue.last_used_idx;
            self.queues[TXQ] = q;
            match result {
                Ok(b) => Ok(b),
                Err(_) => Ok(false),
            }
        } else if queue_idx == RXQ {
            let mut queue = self.queues[RXQ];
            let result = self.process_rx_queue(memory, &mut queue);
            let mut q = self.queues[RXQ];
            q.last_avail_idx = queue.last_avail_idx;
            q.last_used_idx = queue.last_used_idx;
            self.queues[RXQ] = q;
            match result {
                Ok(b) => Ok(b),
                Err(_) => Ok(false),
            }
        } else {
            Ok(false)
        }
    }

    /// Reads the configuration space: the MAC address.
    pub fn read_config(&self, offset: u64, data: &mut [u8])
        ensures
            final(data)@ == Seq::new(
                old(data)@.len(),
                |i: int| transport::config_byte(self@.mac_addr, offset + i),
            ),
    {
        read_config_space(self.mac_addr.as_slice(), offset, data);
    }

    /// Does nothing: the configuration space is read-only.
    pub fn write_config(&mut self, _offset: u64, _data: &[u8])
        ensures
            *final(self) == *old(self),
    {
    }

    /// The kind of the device.
    pub fn device_type(&self) -> (r: DeviceType)
        ensures
            r == DeviceType::Net,
    {
        DeviceType::Net
    }

    /// The features that the device offers.
    pub fn avail_features(&self) -> (r: u64)
        ensures
            r == VIRTIO_NET_F_MAC | VIRTIO_F_VERSION_1,
    {
        VIRTIO_NET_F_MAC | VIRTIO_F_VERSION_1
    }

    /// The features that the driver accepted.
    pub fn acked_features(&self) -> (r: u64)
        ensures
            r == self@.acked_features,
    {
        self.acked_features
    }

    /// Notes the features that the driver accepted.
    pub fn set_acked_features(&mut self, features: u64)
        ensures
            final(self)@ == (NetView { acked_features: features, ..old(self)@ }),
    {
        self.acked_features = features;
    }

    /// The queues: receive, transmit.
    pub fn queues(&self) -> (r: &[VirtQueue; 2])
        ensures
            r@ == self@.queues,
    {
        &self.queues
    }

    /// The queues, to be configured.
    pub fn queues_mut(&mut self) -> (r: &mut [VirtQueue; 2])
        ensures
            r@ == old(self)@.queues,
            final(self)@ == (NetView { queues: final(r)@, ..old(self)@ }),
    {
        &mut self.queues
    }

    /// Notes that the driver is ready.
    pub fn activate(&mut self) -> (r: Result<(), VirtioError>)
        ensures
            r == Ok::<(), VirtioError>(()),
            final(self)@ == (NetView { activated: true, ..old(self)@ }),
    {
        self.activated = true;
        Ok(())
    }

    /// Whether the driver is ready.
    pub fn is_activated(&self) -> (r: bool)
        ensures
            r == self@.activated,
    {
        self.activated
    }

    /// Forgets the driver.
    pub fn reset(&mut self)
        ensures
            final(self)@ == (NetView {
                activated: false,
                queues: Seq::new(
                    2,
                    |i: int| VirtQueue::spec_new(old(self)@.queues[i].max_size),
                ),
                ..old(self)@
            }),
    {
        self.activated = false;
        self.queues = [VirtQueue::new(self.queues[0].max_size), VirtQueue::new(self.queues[1].max_size)];
        assert(self.queues@ =~= Seq::new(
            2,
            |i: int| VirtQueue::spec_new(old(self)@.queues[i].max_size),
        ));
    }
}

/// What the guest receives is the frame once the header is stripped again.
pub proof fn law_header_round_trip(frame: Seq<u8>)
    ensures
        with_header(frame).skip(VNET_HDR_SIZE as int) == frame,
{
    assert(with_header(frame).skip(VNET_HDR_SIZE as int) =~= frame);
}

/// Never more bytes are stored than there are to store, and all of them where
/// the first buffer holds them.
pub proof fn law_stored_bytes(
    m: MemView,
    q: VirtQueue,
    d: VirtqDesc,
    rest: Seq<u8>,
    visited: nat,
    written: u32,
)
    ensures
        chain_stored(m, q, d, rest, visited, written).1 matches Ok(n) ==> n <= written + rest.len(),
        visited < q.size && 0 < rest.len() <= d.len && m.in_bounds(d.addr as int, rest.len() as int)
            ==> chain_stored(m, q, d, rest, visited, written) == (
            m.store(d.addr as int, rest),
            Ok::<u32, QueueFault>(transport::sat_add(written, rest.len() as int)),
        ),
    decreases q.size - visited,
{
    if visited < q.size {
        let n = if rest.len() < d.len {
            rest.len() as int
        } else {
            d.len as int
        };
        let (m1, w) = if n > 0 {
            m.write(d.addr, rest.subrange(0, n))
        } else {
            (m, Ok(()))
        };
        if n == rest.len() {
            assert(rest.subrange(0, n) =~= rest);
        } else if w is Ok && d.spec_has_next() {
            match q.desc(m1, d.next) {
                Err(_) => {},
                Ok(next) => {
                    law_stored_bytes(
                        m1,
                        q,
                        next,
                        rest.skip(n),
                        visited + 1,
                        transport::sat_add(written, n),
                    );
                },
            }
        }
    }
}

/// The backend is asked for a frame only while the guest has a chain for it, and
/// it is asked if the guest has one. Every attempt but the last gave a frame. If
/// chains are left, the last attempt gave none or its frame did not get through,
/// and every frame before is in a chain of its own; otherwise every frame is.
pub proof fn law_frames_meet_chains(
    m: MemView,
    q: VirtQueue,
    attempts: Seq<Option<Seq<u8>>>,
    avail: u16,
    processed: bool,
)
    requires
        rx_complete(m, q, attempts, avail),
    ensures
        attempts.len() <= transport::ring_distance(q.last_avail_idx, avail),
        q.last_avail_idx != avail ==> attempts.len() > 0,
        forall|i: int| 0 <= i < attempts.len() - 1 ==> #[trigger] attempts[i] is Some,
        ({
            let run = rx_run(m, q, attempts, avail, processed);
            let all = transport::ring_distance(q.last_avail_idx, avail);
            let left = transport::ring_distance(run.queue.last_avail_idx, avail);
            &&& left <= all
            &&& attempts.len() == all - left + if left == 0 {
                0int
            } else {
                1
            }
        }),
    decreases attempts.len(),
{
    if q.last_avail_idx != avail && attempts[0] is Some {
        let (m1, q1, d) = delivered(m, q, attempts[0]->Some_0);
        if d is Done {
            reveal(delivered);
            transport::lemma_ring_step(q.last_avail_idx, avail);
            let rest = attempts.skip(1);
            law_frames_meet_chains(m1, q1, rest, avail, true);
            assert forall|i: int| 0 <= i < attempts.len() - 1 implies #[trigger] attempts[i] is Some by {
                if i > 0 {
                    assert(attempts[i] == rest[i - 1]);
                }
            }
        } else {
            reveal(delivered);
        }
    }
}

/// A device without a backend leaves everything as it was.
pub proof fn law_no_backend(d: NetView, m: MemView, idx: usize, e: NetView, n: MemView, did: bool)
    requires
        d.io is None,
        notified(d, m, idx, e, n, did),
    ensures
        e == d,
        n == m,
        !did,
{
}

/// A device without a backend stays as it is over any number of notifications,
/// with its MAC address, and so does guest memory; nothing is ever done.
pub proof fn law_idle_without_backend(
    devices: Seq<NetView>,
    memories: Seq<MemView>,
    queues: Seq<usize>,
    did: Seq<bool>,
)
    requires
        devices.len() == queues.len() + 1,
        memories.len() == queues.len() + 1,
        did.len() == queues.len(),
        devices[0].io is None,
        forall|i: int|
            0 <= i < queues.len() ==> notified(
                devices[i],
                memories[i],
                #[trigger] queues[i],
                devices[i + 1],
                memories[i + 1],
                did[i],
            ),
    ensures
        devices.last() == devices[0],
        devices.last().mac_addr == devices[0].mac_addr,
        memories.last() == memories[0],
        forall|i: int| 0 <= i < did.len() ==> !#[trigger] did[i],
    decreases queues.len(),
{
    if queues.len() > 0 {
        let n = queues.len() - 1;
        assert forall|i: int| 0 <= i < n implies notified(
            devices.drop_last()[i],
            memories.drop_last()[i],
            #[trigger] queues.drop_last()[i],
            devices.drop_last()[i + 1],
            memories.drop_last()[i + 1],
            did.drop_last()[i],
        ) by {
            assert(queues.drop_last()[i] == queues[i]);
        }
        law_idle_without_backend(
            devices.drop_last(),
            memories.drop_last(),
            queues.drop_last(),
            did.drop_last(),
        );
        assert(notified(
            devices[n],
            memories[n],
            queues[n],
            devices[n + 1],
            memories[n + 1],
            did[n],
        ));
        assert forall|i: int| 0 <= i < did.len() implies !#[trigger] did[i] by {
            if i < n {
                assert(did.drop_last()[i] == did[i]);
            }
        }
    }
}

} // verus!
