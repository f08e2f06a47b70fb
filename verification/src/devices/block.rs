//! The virtio block device.
//!
//! A request is a chain of descriptors: a header, data buffers and a status
//! byte. The device decides what is to be done with the disk and the caller
//! does it: working on a queue stops at every disk operation and goes on with
//! the disk's reply.
//!
//! The configuration space holds the number of 512-byte sectors.

use crate::bytes::{self, get_le32, get_le64, le64_vec, prefix_vec};
use crate::failure;
use crate::memory::{GuestMemory, MemView, MemoryError};
use crate::text::{self, push_decimal_bytes};
use crate::transport::{
    self, read_config_space, DescFault, DeviceType, QueueFault, VirtQueue, VirtioError, VirtqDesc,
};
use std::io::Error as IoError;
use vstd::prelude::*;

verus! {

/// Virtio feature: the device is read-only.
pub const VIRTIO_BLK_F_RO: u64 = 0x20;

/// Virtio feature: modern virtio.
pub const VIRTIO_F_VERSION_1: u64 = 0x1_0000_0000;

/// Sector size in bytes.
pub const SECTOR_SIZE: u64 = 512;

/// Largest size of the request queue.
pub const QUEUE_MAX_SIZE: u16 = 256;

/// Size of the device ID in bytes.
pub const DEVICE_ID_LEN: usize = 20;

/// Request: read from the disk.
pub const VIRTIO_BLK_T_IN: u32 = 0;

/// Request: write to the disk.
pub const VIRTIO_BLK_T_OUT: u32 = 1;

/// Request: write through to the medium.
pub const VIRTIO_BLK_T_FLUSH: u32 = 4;

/// Request: the device ID.
pub const VIRTIO_BLK_T_GET_ID: u32 = 8;

/// Status: done.
pub const VIRTIO_BLK_S_OK: u8 = 0;

/// Status: failed.
pub const VIRTIO_BLK_S_IOERR: u8 = 1;

/// Status: no such request.
pub const VIRTIO_BLK_S_UNSUPP: u8 = 2;

/// Errors of the block device.
#[derive(Debug)]
#[non_exhaustive]
pub enum BlockError {
    /// The disk image could not be opened.
    OpenFile(IoError),
    /// The size of the disk image could not be found out.
    GetSize(IoError),
    /// A disk operation failed.
    Io(IoError),
    /// Guest memory access error.
    Memory(MemoryError),
    /// Invalid virtqueue descriptor.
    InvalidDescriptor(String),
}

impl BlockError {
    /// What the text that describes the error is, or starts with.
    pub open spec fn spec_message(self) -> Seq<char> {
        match self {
            BlockError::OpenFile(_) => "failed to open disk image: "@,
            BlockError::GetSize(_) => "failed to get disk size: "@,
            BlockError::Io(_) => "block I/O error: "@,
            BlockError::Memory(e) => "guest memory error: "@ + e.spec_message(),
            BlockError::InvalidDescriptor(s) => "invalid descriptor: "@ + s@,
        }
    }

    /// Whether the host's own text stands behind that of the error.
    pub open spec fn has_host_text(self) -> bool {
        self is OpenFile || self is GetSize || self is Io
    }

    /// The text that describes the error.
    pub fn message(&self) -> (r: String)
        ensures
            self.has_host_text() ==> text::begins_with(r@, self.spec_message()),
            !self.has_host_text() ==> r@ == self.spec_message(),
    {
        match self {
            BlockError::OpenFile(e) => failure::io_message("failed to open disk image: ", e),
            BlockError::GetSize(e) => failure::io_message("failed to get disk size: ", e),
            BlockError::Io(e) => failure::io_message("block I/O error: ", e),
            BlockError::Memory(e) => text::behind("guest memory error: ", e.message().as_str()),
            BlockError::InvalidDescriptor(s) => text::behind("invalid descriptor: ", s.as_str()),
        }
    }

    /// Whether the error reports this fault.
    pub open spec fn reports(self, f: QueueFault) -> bool {
        match f {
            QueueFault::Memory(e) => self == BlockError::Memory(e),
            QueueFault::Descriptor(d) => self matches BlockError::InvalidDescriptor(s) && s@
                == d.spec_text(),
        }
    }

    /// The error that reports a fault.
    pub fn from_fault(f: QueueFault) -> (r: BlockError)
        ensures
            r.reports(f),
    {
        match f {
            QueueFault::Memory(e) => BlockError::Memory(e),
            QueueFault::Descriptor(d) => BlockError::InvalidDescriptor(d.text()),
        }
    }
}

/// An operation on the disk image.
#[derive(Debug)]
pub enum DiskOp {
    /// Go to a byte offset.
    Seek(u64),
    /// Read exactly so many bytes and move on behind them.
    Read(usize),
    /// Write all of these bytes and move on behind them.
    Write(Vec<u8>),
    /// Write through to the medium.
    Sync,
}

/// An operation on the disk image, as a model.
#[verifier::ext_equal]
pub enum DiskOpView {
    Seek(u64),
    Read(usize),
    Write(Seq<u8>),
    Sync,
}

impl View for DiskOp {
    type V = DiskOpView;

    open spec fn view(&self) -> DiskOpView {
        match self {
            DiskOp::Seek(o) => DiskOpView::Seek(*o),
            DiskOp::Read(n) => DiskOpView::Read(*n),
            DiskOp::Write(v) => DiskOpView::Write(v@),
            DiskOp::Sync => DiskOpView::Sync,
        }
    }
}

/// What the disk says to an operation.
#[derive(Debug)]
pub enum DiskReply {
    /// It was done.
    Done,
    /// It was done, and these bytes were read.
    Data(Vec<u8>),
    /// It failed.
    Failed,
}

/// What the disk says to an operation, as a model.
#[verifier::ext_equal]
pub enum DiskReplyView {
    Done,
    Data(Seq<u8>),
    Failed,
}

impl View for DiskReply {
    type V = DiskReplyView;

    open spec fn view(&self) -> DiskReplyView {
        match self {
            DiskReply::Done => DiskReplyView::Done,
            DiskReply::Data(v) => DiskReplyView::Data(v@),
            DiskReply::Failed => DiskReplyView::Failed,
        }
    }
}

/// A request of the driver, and how far it has come.
#[verifier::ext_equal]
pub struct RequestView {
    pub head: u16,
    /// `VIRTIO_BLK_T_*`, or anything else.
    pub kind: u32,
    pub sector: u64,
    /// The data buffers.
    pub data: Seq<VirtqDesc>,
    /// The buffer of the status byte.
    pub status: VirtqDesc,
    /// Whether the first disk operation is done.
    pub started: bool,
    /// How many data buffers are done.
    pub next: nat,
    /// How many bytes were stored into guest memory.
    pub written: u32,
}

/// The request in the chain that starts at `head`.
#[verifier::opaque]
pub open spec fn parsed(m: MemView, q: VirtQueue, head: u16) -> Result<RequestView, QueueFault> {
    match q.desc(m, head) {
        Err(f) => Err(f),
        Ok(hd) => if hd.spec_writable() {
            Err(QueueFault::Descriptor(DescFault::HeaderWritable))
        } else if hd.len < 16 {
            Err(QueueFault::Descriptor(DescFault::HeaderTooSmall))
        } else if !hd.spec_has_next() {
            Err(QueueFault::Descriptor(DescFault::HeaderUnchained))
        } else {
            match m.read(hd.addr, 16) {
                Err(e) => Err(QueueFault::Memory(e)),
                Ok(b) => match q.chain(m, hd.next, 0) {
                    Err(f) => Err(f),
                    Ok(c) => if !c.last().spec_writable() {
                        Err(QueueFault::Descriptor(DescFault::StatusNotWritable))
                    } else {
                        Ok(
                            RequestView {
                                head,
                                kind: bytes::le32(b, 0),
                                sector: bytes::le64(b, 8),
                                data: c.drop_last(),
                                status: c.last(),
                                started: false,
                                next: 0,
                                written: 0,
                            },
                        )
                    },
                },
            }
        },
    }
}

/// What a request needs next: a disk operation, or its end with a status
/// (`None`: it failed).
#[verifier::ext_equal]
pub enum Need {
    Disk(DiskOpView),
    End(Option<u8>),
}

/// Stores the device ID into the data buffers from `r.next` on. Leaves the
/// memory, the request, and the status (`None`: guest memory does not hold a
/// buffer).
pub open spec fn id_stored(m: MemView, id: Seq<u8>, r: RequestView) -> (
    MemView,
    RequestView,
    Option<u8>,
)
    decreases r.data.len() - r.next,
{
    if r.next >= r.data.len() {
        (m, r, Some(VIRTIO_BLK_S_OK))
    } else {
        let d = r.data[r.next as int];
        if !d.spec_writable() {
            (m, r, Some(VIRTIO_BLK_S_IOERR))
        } else {
            let n = if d.len < id.len() {
                d.len as int
            } else {
                id.len() as int
            };
            let (m1, w) = m.write(d.addr, id.subrange(0, n));
            match w {
                Err(_) => (m1, r, None),
                Ok(_) => id_stored(
                    m1,
                    id,
                    RequestView { next: r.next + 1, written: transport::sat_add(r.written, n), ..r },
                ),
            }
        }
    }
}

/// The byte offset of a sector, if it fits into 64 bits.
pub open spec fn sector_offset(sector: u64) -> Option<u64> {
    if sector * SECTOR_SIZE > u64::MAX {
        None
    } else {
        Some((sector * SECTOR_SIZE) as u64)
    }
}

/// What a request needs next.
#[verifier::opaque]
pub open spec fn needs(read_only: bool, id: Seq<u8>, m: MemView, r: RequestView) -> (
    MemView,
    RequestView,
    Need,
) {
    if r.kind == VIRTIO_BLK_T_IN {
        (
            m,
            r,
            if !r.started {
                match sector_offset(r.sector) {
                    Some(o) => Need::Disk(DiskOpView::Seek(o)),
                    None => Need::End(None),
                }
            } else if r.next >= r.data.len() {
                Need::End(Some(VIRTIO_BLK_S_OK))
            } else if !r.data[r.next as int].spec_writable() {
                Need::End(Some(VIRTIO_BLK_S_IOERR))
            } else {
                Need::Disk(DiskOpView::Read(r.data[r.next as int].len as usize))
            },
        )
    } else if r.kind == VIRTIO_BLK_T_OUT {
        (
            m,
            r,
            if read_only {
                Need::End(Some(VIRTIO_BLK_S_IOERR))
            } else if !r.started {
                match sector_offset(r.sector) {
                    Some(o) => Need::Disk(DiskOpView::Seek(o)),
                    None => Need::End(None),
                }
            } else if r.next >= r.data.len() {
                Need::End(Some(VIRTIO_BLK_S_OK))
            } else if r.data[r.next as int].spec_writable() {
                Need::End(Some(VIRTIO_BLK_S_IOERR))
            } else {
                match m.read(r.data[r.next as int].addr, r.data[r.next as int].len as usize) {
                    Err(_) => Need::End(None),
                    Ok(b) => Need::Disk(DiskOpView::Write(b)),
                }
            },
        )
    } else if r.kind == VIRTIO_BLK_T_FLUSH {
        (
            m,
            r,
            if r.started {
                Need::End(Some(VIRTIO_BLK_S_OK))
            } else {
                Need::Disk(DiskOpView::Sync)
            },
        )
    } else if r.kind == VIRTIO_BLK_T_GET_ID {
        let (m1, r1, s) = id_stored(m, id, r);
        (m1, r1, Need::End(s))
    } else {
        (m, r, Need::End(Some(VIRTIO_BLK_S_UNSUPP)))
    }
}

/// The memory and the request after the disk's reply (`None`: it failed).
#[verifier::opaque]
pub open spec fn replied(m: MemView, r: RequestView, reply: DiskReplyView) -> (
    MemView,
    Option<RequestView>,
) {
    if !r.started {
        match reply {
            DiskReplyView::Done => (m, Some(RequestView { started: true, ..r })),
            _ => (m, None),
        }
    } else if r.next >= r.data.len() {
        (m, None)
    } else if r.kind == VIRTIO_BLK_T_IN {
        let d = r.data[r.next as int];
        match reply {
            DiskReplyView::Data(b) => if b.len() != d.len {
                (m, None)
            } else {
                let (m1, w) = m.write(d.addr, b);
                match w {
                    Err(_) => (m1, None),
                    Ok(_) => (
                        m1,
                        Some(
                            RequestView {
                                next: r.next + 1,
                                written: transport::sat_add(r.written, d.len as int),
                                ..r
                            },
                        ),
                    ),
                }
            },
            _ => (m, None),
        }
    } else {
        match reply {
            DiskReplyView::Done => (m, Some(RequestView { next: r.next + 1, ..r })),
            _ => (m, None),
        }
    }
}

/// Ends a request: stores its status byte. Leaves the memory, the status that
/// counts, and how many bytes the device stored.
#[verifier::opaque]
pub open spec fn ended(m: MemView, r: RequestView, status: Option<u8>) -> (MemView, u8, u32) {
    match status {
        None => (m, VIRTIO_BLK_S_IOERR, 0),
        Some(s) => {
            let (m1, w) = m.write(r.status.addr, seq![s]);
            match w {
                Err(_) => (m1, VIRTIO_BLK_S_IOERR, 0),
                Ok(_) => (m1, s, transport::sat_add(r.written, 1)),
            }
        },
    }
}

/// Gives the chain at `head` back to the driver: fills the used ring, moves on,
/// and stores the status into the chain's last descriptor.
pub open spec fn settled(m: MemView, q: VirtQueue, head: u16, status: u8, written: u32) -> (
    MemView,
    VirtQueue,
    Result<(), QueueFault>,
) {
    let (m1, w1) = q.put_used(m, head, written);
    match w1 {
        Err(e) => (m1, q, Err(QueueFault::Memory(e))),
        Ok(_) => {
            let q1 = q.advanced();
            match q1.chain(m1, head, 0) {
                Err(f) => (m1, q1, Err(status_fault(f))),
                Ok(c) => {
                    let (m2, w2) = m1.write(c.last().addr, seq![status]);
                    match w2 {
                        Err(e) => (m2, q1, Err(QueueFault::Memory(e))),
                        Ok(_) => (m2, q1, Ok(())),
                    }
                },
            }
        },
    }
}

/// A fault of a chain, met while its status was stored.
pub open spec fn status_fault(f: QueueFault) -> QueueFault {
    if f == QueueFault::Descriptor(DescFault::Cycle) {
        QueueFault::Descriptor(DescFault::CycleInStatusWrite)
    } else {
        f
    }
}

/// Work on a queue that has come to a stop.
#[verifier::ext_equal]
pub struct BlockRunView {
    pub queue: VirtQueue,
    /// The entries of the avail ring up to here are taken.
    pub avail: u16,
    pub processed: bool,
    /// The request that waits for the disk.
    pub active: Option<RequestView>,
}

/// Why work on a queue stopped.
#[verifier::ext_equal]
pub enum StopView {
    Disk(DiskOpView),
    Finished(Result<bool, QueueFault>),
}

/// Memory, work and reason after a stop.
#[verifier::ext_equal]
pub struct Stopped {
    pub mem: MemView,
    pub run: BlockRunView,
    pub stop: StopView,
}

/// The fixed properties of a block device.
#[verifier::ext_equal]
pub struct DiskView {
    pub num_sectors: u64,
    pub read_only: bool,
    pub device_id: Seq<u8>,
}

impl DiskView {
    /// Ends request `r` with `status`, gives its chain back and goes on.
    pub open spec fn after_request(
        self,
        m: MemView,
        run: BlockRunView,
        head: u16,
        status: u8,
        written: u32,
    ) -> Stopped
        decreases transport::ring_distance(run.queue.last_avail_idx, run.avail), 1int,
    {
        let (m1, q1, s) = settled(m, run.queue, head, status, written);
        let r1 = BlockRunView { queue: q1, active: None, ..run };
        match s {
            Err(f) => Stopped { mem: m1, run: r1, stop: StopView::Finished(Err(f)) },
            Ok(_) => if run.queue.last_avail_idx == run.avail {
                // Not reached: a request at hand has its entry before `avail`.
                Stopped { mem: m1, run: r1, stop: StopView::Finished(Ok(true)) }
            } else {
                self.go_on(m1, BlockRunView { processed: true, ..r1 })
            },
        }
    }

    /// Works on a queue, with a request at hand or not, until a disk operation
    /// is needed or the queue is done.
    pub open spec fn go_on(self, m: MemView, run: BlockRunView) -> Stopped
        decreases
            transport::ring_distance(run.queue.last_avail_idx, run.avail),
            (if run.active is None {
                3int
            } else {
                2int
            }),
    {
        match run.active {
            Some(r) => {
                let (m1, r1, need) = needs(self.read_only, self.device_id, m, r);
                match need {
                    Need::Disk(op) => Stopped {
                        mem: m1,
                        run: BlockRunView { active: Some(r1), ..run },
                        stop: StopView::Disk(op),
                    },
                    Need::End(s) => {
                        let (m2, status, written) = ended(m1, r1, s);
                        self.after_request(m2, run, r.head, status, written)
                    },
                }
            },
            None => if run.queue.last_avail_idx == run.avail {
                if run.processed {
                    let (m1, w) = run.queue.put_used_idx(m);
                    Stopped {
                        mem: m1,
                        run,
                        stop: StopView::Finished(
                            match w {
                                Ok(_) => Ok(true),
                                Err(e) => Err(QueueFault::Memory(e)),
                            },
                        ),
                    }
                } else {
                    Stopped { mem: m, run, stop: StopView::Finished(Ok(false)) }
                }
            } else {
                match run.queue.avail_head(m) {
                    Err(e) => Stopped {
                        mem: m,
                        run,
                        stop: StopView::Finished(Err(QueueFault::Memory(e))),
                    },
                    Ok(head) => match parsed(m, run.queue, head) {
                        Err(_) => self.after_request(m, run, head, VIRTIO_BLK_S_IOERR, 0),
                        Ok(r) => self.go_on(m, BlockRunView { active: Some(r), ..run }),
                    },
                }
            },
        }
    }

    /// Where work goes to with a request that has just ended, or without one.
    pub open spec fn target(self, m: MemView, run: BlockRunView, ended: Option<(u16, u8, u32)>) -> Stopped {
        match ended {
            Some((head, status, written)) => self.after_request(m, run, head, status, written),
            None => self.go_on(m, run),
        }
    }

    /// Whether work leads to this memory, this state and this step.
    pub open spec fn reaches(
        self,
        m: MemView,
        run: BlockRunView,
        ended: Option<(u16, u8, u32)>,
        m1: MemView,
        run1: BlockRunView,
        step: BlockStep,
    ) -> bool {
        let s = self.target(m, run, ended);
        m1 == s.mem && run1 == s.run && step.is_stop(s.stop)
    }

    /// Starts to work on a queue.
    pub open spec fn begun(self, m: MemView, q: VirtQueue) -> Stopped {
        let idle = BlockRunView { queue: q, avail: q.last_avail_idx, processed: false, active: None };
        if !q.usable() {
            Stopped { mem: m, run: idle, stop: StopView::Finished(Ok(false)) }
        } else {
            match q.avail_idx(m) {
                Err(e) => Stopped {
                    mem: m,
                    run: idle,
                    stop: StopView::Finished(Err(QueueFault::Memory(e))),
                },
                Ok(avail) => self.go_on(m, BlockRunView { avail, ..idle }),
            }
        }
    }

    /// Goes on with the disk's reply.
    pub open spec fn resumed(self, m: MemView, run: BlockRunView, reply: DiskReplyView) -> Stopped {
        match run.active {
            None => Stopped { mem: m, run, stop: StopView::Finished(Ok(run.processed)) },
            Some(r) => match replied(m, r, reply) {
                (m1, Some(r1)) => self.go_on(m1, BlockRunView { active: Some(r1), ..run }),
                (m1, None) => self.after_request(m1, run, r.head, VIRTIO_BLK_S_IOERR, 0),
            },
        }
    }
}

/// A request of the driver, and how far it has come.
#[derive(Debug)]
pub struct BlockRequest {
    head: u16,
    kind: u32,
    sector: u64,
    data: Vec<VirtqDesc>,
    status: VirtqDesc,
    started: bool,
    next: usize,
    written: u32,
}

impl View for BlockRequest {
    type V = RequestView;

    closed spec fn view(&self) -> RequestView {
        RequestView {
            head: self.head,
            kind: self.kind,
            sector: self.sector,
            data: self.data@,
            status: self.status,
            started: self.started,
            next: self.next as nat,
            written: self.written,
        }
    }
}

/// Work on a queue that has come to a stop.
#[derive(Debug)]
pub struct BlockRun {
    queue: VirtQueue,
    avail: u16,
    processed: bool,
    active: Option<BlockRequest>,
}

impl View for BlockRun {
    type V = BlockRunView;

    closed spec fn view(&self) -> BlockRunView {
        BlockRunView {
            queue: self.queue,
            avail: self.avail,
            processed: self.processed,
            active: match self.active {
                Some(r) => Some(r@),
                None => None,
            },
        }
    }
}

impl BlockRun {
    /// A request at hand has its entry before the end of the avail ring.
    pub closed spec fn wf(self) -> bool {
        self.active is Some ==> self.queue.size != 0 && self.queue.last_avail_idx != self.avail
    }

    /// The queue with the positions that the work has come to.
    pub fn queue(&self) -> (r: VirtQueue)
        ensures
            r == self@.queue,
    {
        self.queue
    }
}

/// Why work on a queue stopped.
#[derive(Debug)]
pub enum BlockStep {
    /// The disk is to do this.
    Disk(DiskOp),
    /// The queue is done: whether anything was handled, or what went wrong.
    Finished(Result<bool, BlockError>),
}

impl BlockStep {
    /// Whether the step is this one.
    pub open spec fn is_stop(self, s: StopView) -> bool {
        match (self, s) {
            (BlockStep::Disk(op), StopView::Disk(v)) => op@ == v,
            (BlockStep::Finished(Ok(b)), StopView::Finished(Ok(c))) => b == c,
            (BlockStep::Finished(Err(e)), StopView::Finished(Err(f))) => e.reports(f),
            _ => false,
        }
    }
}

enum NeedExec {
    Disk(DiskOp),
    End(Option<u8>),
}

/// The virtio block device.
#[derive(Debug)]
pub struct BlockDevice {
    num_sectors: u64,
    read_only: bool,
    acked_features: u64,
    queues: [VirtQueue; 1],
    activated: bool,
    device_id: [u8; 20],
}

/// What a block device is.
#[verifier::ext_equal]
pub struct BlockView {
    pub disk: DiskView,
    pub acked_features: u64,
    pub queues: Seq<VirtQueue>,
    pub activated: bool,
}

impl View for BlockDevice {
    type V = BlockView;

    closed spec fn view(&self) -> BlockView {
        BlockView {
            disk: DiskView {
                num_sectors: self.num_sectors,
                read_only: self.read_only,
                device_id: self.device_id@,
            },
            acked_features: self.acked_features,
            queues: self.queues@,
            activated: self.activated,
        }
    }
}

proof fn lemma_request_gone(
    d: DiskView,
    m: MemView,
    run: BlockRunView,
    head: u16,
    status: u8,
    written: u32,
)
    ensures
        d.after_request(m, run, head, status, written) == d.after_request(
            m,
            BlockRunView { active: None, ..run },
            head,
            status,
            written,
        ),
{
}

impl BlockDevice {
    /// Reads the request in the chain that starts at `head`.
    fn read_request(memory: &GuestMemory, queue: &VirtQueue, head: u16) -> (r: Result<
        BlockRequest,
        QueueFault,
    >)
        ensures
            match r {
                Ok(req) => parsed(memory@, *queue, head) == Ok::<RequestView, QueueFault>(req@),
                Err(f) => parsed(memory@, *queue, head) == Err::<RequestView, QueueFault>(f),
            },
    {
        proof {
            reveal(parsed);
        }
        let header = match queue.read_desc(memory, head) {
            Ok(d) => d,
            Err(f) => return Err(f),
        };
        if header.is_writable() {
            return Err(QueueFault::Descriptor(DescFault::HeaderWritable));
        }
        if header.len < 16 {
            return Err(QueueFault::Descriptor(DescFault::HeaderTooSmall));
        }
        if !header.has_next() {
            return Err(QueueFault::Descriptor(DescFault::HeaderUnchained));
        }
        let hdr = match memory.read_bytes(header.addr, 16) {
            Ok(b) => b,
            Err(e) => return Err(QueueFault::Memory(e)),
        };
        let mut chain = match queue.read_chain(memory, header.next) {
            Ok(c) => c,
            Err(f) => return Err(f),
        };
        let ghost whole = chain@;
        let status = chain[chain.len() - 1];
        let _ = chain.pop();
        assert(chain@ =~= whole.drop_last());
        if !status.is_writable() {
            return Err(QueueFault::Descriptor(DescFault::StatusNotWritable));
        }
        Ok(
            BlockRequest {
                head,
                kind: get_le32(hdr.as_slice(), 0),
                sector: get_le64(hdr.as_slice(), 8),
                data: chain,
                status,
                started: false,
                next: 0,
                written: 0,
            },
        )
    }

    /// Stores the device ID into the request's data buffers.
    fn store_id(&self, memory: &mut GuestMemory, req: &mut BlockRequest) -> (r: Option<u8>)
        ensures
            (final(memory)@, final(req)@, r) == id_stored(
                old(memory)@,
                self@.disk.device_id,
                old(req)@,
            ),
    {
        let ghost goal = id_stored(memory@, self@.disk.device_id, req@);
        while req.next < req.data.len()
            invariant
                goal == id_stored(memory@, self@.disk.device_id, req@),
                goal == id_stored(old(memory)@, self@.disk.device_id, old(req)@),
            decreases req.data@.len() - req.next,
        {
            let d = req.data[req.next];
            if !d.is_writable() {
                return Some(VIRTIO_BLK_S_IOERR);
            }
            let n: usize = if (d.len as usize) < DEVICE_ID_LEN {
                d.len as usize
            } else {
                DEVICE_ID_LEN
            };
            let id = prefix_vec(self.device_id.as_slice(), n);
            match memory.write_bytes(d.addr, id.as_slice()) {
                Ok(_) => {},
                Err(_) => return None,
            }
            req.next = req.next + 1;
            req.written = req.written.saturating_add(n as u32);
        }
        Some(VIRTIO_BLK_S_OK)
    }

    fn seek_to(sector: u64) -> (r: NeedExec)
        ensures
            match sector_offset(sector) {
                Some(o) => r == NeedExec::Disk(DiskOp::Seek(o)),
                None => r == NeedExec::End(None),
            },
    {
        match sector.checked_mul(SECTOR_SIZE) {
            Some(o) => NeedExec::Disk(DiskOp::Seek(o)),
            None => NeedExec::End(None),
        }
    }

    /// What the request needs next.
    fn next_need(&self, memory: &mut GuestMemory, req: &mut BlockRequest) -> (r: NeedExec)
        ensures
            ({
                let (m, q, n) = needs(
                    self@.disk.read_only,
                    self@.disk.device_id,
                    old(memory)@,
                    old(req)@,
                );
                &&& final(memory)@ == m
                &&& final(req)@ == q
                &&& match r {
                    NeedExec::Disk(op) => n == Need::Disk(op@),
                    NeedExec::End(s) => n == Need::End(s),
                }
            }),
    {
        proof {
            reveal(needs);
        }
        if req.kind == VIRTIO_BLK_T_IN {
            if !req.started {
                Self::seek_to(req.sector)
            } else if req.next >= req.data.len() {
                NeedExec::End(Some(VIRTIO_BLK_S_OK))
            } else if !req.data[req.next].is_writable() {
                NeedExec::End(Some(VIRTIO_BLK_S_IOERR))
            } else {
                NeedExec::Disk(DiskOp::Read(req.data[req.next].len as usize))
            }
        } else if req.kind == VIRTIO_BLK_T_OUT {
            if self.read_only {
                NeedExec::End(Some(VIRTIO_BLK_S_IOERR))
            } else if !req.started {
                Self::seek_to(req.sector)
            } else if req.next >= req.data.len() {
                NeedExec::End(Some(VIRTIO_BLK_S_OK))
            } else if req.data[req.next].is_writable() {
                NeedExec::End(Some(VIRTIO_BLK_S_IOERR))
            } else {
                let d = req.data[req.next];
                match memory.read_bytes(d.addr, d.len as usize) {
                    Ok(b) => NeedExec::Disk(DiskOp::Write(b)),
                    Err(_) => NeedExec::End(None),
                }
            }
        } else if req.kind == VIRTIO_BLK_T_FLUSH {
            if req.started {
                NeedExec::End(Some(VIRTIO_BLK_S_OK))
            } else {
                NeedExec::Disk(DiskOp::Sync)
            }
        } else if req.kind == VIRTIO_BLK_T_GET_ID {
            NeedExec::End(self.store_id(memory, req))
        } else {
            NeedExec::End(Some(VIRTIO_BLK_S_UNSUPP))
        }
    }

    /// Takes the disk's reply into the request, and says whether it goes on.
    fn take_reply(memory: &mut GuestMemory, req: &mut BlockRequest, reply: DiskReply) -> (r: bool)
        ensures
            ({
                let (m, q) = replied(old(memory)@, old(req)@, reply@);
                &&& final(memory)@ == m
                &&& final(req)@.head == old(req)@.head
                &&& match q {
                    Some(v) => r && final(req)@ == v,
                    None => !r,
                }
            }),
    {
        proof {
            reveal(replied);
        }
        if !req.started {
            match reply {
                DiskReply::Done => {
                    req.started = true;
                    return true;
                },
                _ => return false,
            }
        }
        if req.next >= req.data.len() {
            return false;
        }
        if req.kind == VIRTIO_BLK_T_IN {
            let d = req.data[req.next];
            match reply {
                DiskReply::Data(b) => {
                    if b.len() != d.len as usize {
                        return false;
                    }
                    match memory.write_bytes(d.addr, b.as_slice()) {
                        Ok(_) => {},
                        Err(_) => return false,
                    }
                    req.written = req.written.saturating_add(d.len);
                },
                _ => return false,
            }
        } else {
            match reply {
                DiskReply::Done => {},
                _ => return false,
            }
        }
        req.next = req.next + 1;
        true
    }

    /// Stores the request's status byte.
    fn end_request(memory: &mut GuestMemory, req: &BlockRequest, status: Option<u8>) -> (r: (
        u8,
        u32,
    ))
        ensures
            (final(memory)@, r.0, r.1) == ended(old(memory)@, req@, status),
    {
        proof {
            reveal(ended);
        }
        match status {
            None => (VIRTIO_BLK_S_IOERR, 0),
            Some(s) => {
                let mut one: Vec<u8> = Vec::new();
                one.push(s);
                assert(one@ =~= seq![s]);
                match memory.write_bytes(req.status.addr, one.as_slice()) {
                    Ok(_) => (s, req.written.saturating_add(1)),
                    Err(_) => (VIRTIO_BLK_S_IOERR, 0),
                }
            },
        }
    }

    /// Stores a status byte into the last descriptor of a chain.
    fn write_status_for_chain(
        memory: &mut GuestMemory,
        queue: &VirtQueue,
        head: u16,
        status: u8,
    ) -> (r: Result<(), QueueFault>)
        ensures
            match queue.chain(old(memory)@, head, 0) {
                Err(f) => r == Err::<(), QueueFault>(status_fault(f)) && final(memory)@ == old(memory)@,
                Ok(c) => {
                    let (m, w) = old(memory)@.write(c.last().addr, seq![status]);
                    &&& final(memory)@ == m
                    &&& r == (match w {
                        Ok(_) => Ok::<(), QueueFault>(()),
                        Err(e) => Err(QueueFault::Memory(e)),
                    })
                },
            },
    {
        let chain = match queue.read_chain(memory, head) {
            Ok(c) => c,
            Err(f) => {
                return match f {
                    QueueFault::Descriptor(DescFault::Cycle) => Err(
                        QueueFault::Descriptor(DescFault::CycleInStatusWrite),
                    ),
                    _ => Err(f),
                };
            },
        };
        let last = chain[chain.len() - 1];
        let mut one: Vec<u8> = Vec::new();
        one.push(status);
        assert(one@ =~= seq![status]);
        match memory.write_bytes(last.addr, one.as_slice()) {
            Ok(_) => Ok(()),
            Err(e) => Err(QueueFault::Memory(e)),
        }
    }

    /// Gives the chain at `head` back to the driver.
    fn settle(
        memory: &mut GuestMemory,
        queue: &mut VirtQueue,
        head: u16,
        status: u8,
        written: u32,
    ) -> (r: Result<(), QueueFault>)
        requires
            old(queue).size != 0,
        ensures
            (final(memory)@, *final(queue), r) == settled(
                old(memory)@,
                *old(queue),
                head,
                status,
                written,
            ),
    {
        match queue.write_used(memory, head, written) {
            Ok(_) => {},
            Err(e) => return Err(QueueFault::Memory(e)),
        }
        queue.advance();
        Self::write_status_for_chain(memory, queue, head, status)
    }

    /// Gives the chain of a request back that has just ended. Stops only if
    /// that fails.
    fn after_request(
        &self,
        memory: &mut GuestMemory,
        run: &mut BlockRun,
        head: u16,
        status: u8,
        written: u32,
    ) -> (r: Option<BlockStep>)
        requires
            old(run)@.queue.size != 0,
            old(run)@.active is None,
            old(run)@.queue.last_avail_idx != old(run)@.avail,
        ensures
            final(run)@.active is None,
            final(run)@.queue.size != 0,
            ({
                let s = self@.disk.after_request(
                    old(memory)@,
                    old(run)@,
                    head,
                    status,
                    written,
                );
                match r {
                    Some(step) => final(memory)@ == s.mem && final(run)@ == s.run && step.is_stop(
                        s.stop,
                    ),
                    None => s == self@.disk.go_on(final(memory)@, final(run)@) && final(run)@.avail
                        == old(run)@.avail && final(run)@.queue == old(run)@.queue.advanced(),
                }
            }),
    {
        match Self::settle(memory, &mut run.queue, head, status, written) {
            Ok(_) => {
                run.processed = true;
                None
            },
            Err(f) => Some(BlockStep::Finished(Err(BlockError::from_fault(f)))),
        }
    }

    /// Goes on with the request at hand. Gives the step to stop at, or the head,
    /// status and size of the request if it ended.
    fn advance_request(&self, memory: &mut GuestMemory, run: &mut BlockRun) -> (r: Result<
        BlockStep,
        (u16, u8, u32),
    >)
        requires
            old(run)@.active is Some,
        ensures
            final(run)@ == (BlockRunView { active: final(run)@.active, ..old(run)@ }),
            ({
                let s = self@.disk.go_on(old(memory)@, old(run)@);
                match r {
                    Ok(step) => final(memory)@ == s.mem && final(run)@ == s.run && step.is_stop(
                        s.stop,
                    ),
                    Err((head, status, written)) => final(run)@.active is None && s
                        == self@.disk.after_request(
                        final(memory)@,
                        final(run)@,
                        head,
                        status,
                        written,
                    ),
                }
            }),
    {
        let ghost before = run@;
        match run.active.take() {
            None => Ok(BlockStep::Disk(DiskOp::Sync)),
            Some(req) => {
                let mut req = req;
                let head: u16 = req.head;
                match self.next_need(memory, &mut req) {
                    NeedExec::Disk(op) => {
                        run.active = Some(req);
                        Ok(BlockStep::Disk(op))
                    },
                    NeedExec::End(s) => {
                        let (status, written) = Self::end_request(memory, &req, s);
                        proof {
                            lemma_request_gone(
                                self@.disk,
                                memory@,
                                before,
                                head,
                                status,
                                written,
                            );
                            assert(run@ == (BlockRunView { active: None, ..before }));
                        }
                        Err((head, status, written))
                    },
                }
            },
        }
    }

    /// Takes the next entry of the avail ring. Gives the step to stop at, or,
    /// if the entry's request is malformed, its head.
    fn take_entry(&self, memory: &mut GuestMemory, run: &mut BlockRun) -> (r: Result<
        Option<BlockStep>,
        u16,
    >)
        requires
            old(run)@.active is None,
            old(run)@.queue.size != 0,
        ensures
            final(run)@ == (BlockRunView { active: final(run)@.active, ..old(run)@ }),
            ({
                let s = self@.disk.go_on(old(memory)@, old(run)@);
                match r {
                    Ok(Some(step)) => final(memory)@ == s.mem && final(run)@ == s.run
                        && step.is_stop(s.stop),
                    Ok(None) => final(run)@.active is Some && final(run)@.queue.last_avail_idx
                        != final(run)@.avail && s == self@.disk.go_on(final(memory)@, final(run)@),
                    Err(head) => final(run)@ == old(run)@ && final(run)@.queue.last_avail_idx
                        != final(run)@.avail && s == self@.disk.after_request(
                        final(memory)@,
                        final(run)@,
                        head,
                        VIRTIO_BLK_S_IOERR,
                        0,
                    ),
                }
            }),
    {
        if run.queue.last_avail_idx == run.avail {
            if run.processed {
                return match run.queue.write_used_idx(memory) {
                    Ok(_) => Ok(Some(BlockStep::Finished(Ok(true)))),
                    Err(e) => Ok(
                        Some(
                            BlockStep::Finished(
                                Err(BlockError::from_fault(QueueFault::Memory(e))),
                            ),
                        ),
                    ),
                };
            }
            return Ok(Some(BlockStep::Finished(Ok(false))));
        }
        let head: u16 = match run.queue.read_avail_head(memory) {
            Ok(h) => h,
            Err(e) => {
                return Ok(
                    Some(
                        BlockStep::Finished(Err(BlockError::from_fault(QueueFault::Memory(e)))),
                    ),
                );
            },
        };
        match Self::read_request(memory, &run.queue, head) {
            Ok(req) => {
                run.active = Some(req);
                Ok(None)
            },
            Err(_) => Err(head),
        }
    }

    /// Works until a disk operation is needed or the queue is done. `given` is
    /// a request that has just ended: its head, status and size.
    fn go_on(&self, memory: &mut GuestMemory, run: &mut BlockRun, given: Option<(u16, u8, u32)>) -> (r:
        BlockStep)
        requires
            old(run).wf(),
            old(run)@.queue.size != 0,
            given is Some ==> old(run)@.active is None && old(run)@.queue.last_avail_idx != old(run)@.avail,
        ensures
            self@.disk.reaches(old(memory)@, old(run)@, given, final(memory)@, final(run)@, r),
            final(run).wf(),
    {
        let mut ended = given;
        loop
            invariant
                run.wf(),
                run@.queue.size != 0,
                ended is Some ==> run@.active is None && run@.queue.last_avail_idx != run@.avail,
                self@.disk.target(memory@, run@, ended) == self@.disk.target(
                    old(memory)@,
                    old(run)@,
                    given,
                ),
            decreases
                transport::ring_distance(run@.queue.last_avail_idx, run@.avail),
                (if ended is Some {
                    1int
                } else if run@.active is None {
                    3int
                } else {
                    2int
                }),
        {
            match ended {
                Some((head, status, written)) => {
                    proof {
                        transport::lemma_ring_step(run@.queue.last_avail_idx, run@.avail);
                    }
                    match self.after_request(memory, run, head, status, written) {
                        Some(step) => return step,
                        None => {
                            ended = None;
                        },
                    }
                },
                None => {
                    if run.active.is_some() {
                        match self.advance_request(memory, run) {
                            Ok(step) => return step,
                            Err(e) => {
                                ended = Some(e);
                            },
                        }
                    } else {
                        match self.take_entry(memory, run) {
                            Ok(Some(step)) => return step,
                            Ok(None) => {},
                            Err(head) => {
                                ended = Some((head, VIRTIO_BLK_S_IOERR, 0));
                            },
                        }
                    }
                },
            }
        }
    }
}

/// The device ID of a disk image: its device, its special device and its inode
/// number in decimal, one behind the other, cut or filled up with zeros.
pub open spec fn id_bytes(file_id: Option<(u64, u64, u64)>) -> Seq<u8> {
    let s = match file_id {
        Some((dev, rdev, ino)) => text::char_bytes(text::decimal(dev as nat)) + text::char_bytes(
            text::decimal(rdev as nat),
        ) + text::char_bytes(text::decimal(ino as nat)),
        None => Seq::empty(),
    };
    Seq::new(20, |i: int| transport::config_byte(s, i))
}

impl BlockDevice {
    /// Builds the device ID from the numbers that identify the disk image.
    pub fn build_device_id(file_id: Option<(u64, u64, u64)>) -> (r: [u8; 20])
        ensures
            r@ == id_bytes(file_id),
    {
        let mut s: Vec<u8> = Vec::new();
        match file_id {
            Some((dev, rdev, ino)) => {
                push_decimal_bytes(&mut s, dev);
                push_decimal_bytes(&mut s, rdev);
                push_decimal_bytes(&mut s, ino);
            },
            None => {},
        }
        let mut id: [u8; 20] = [0u8; 20];
        let mut i: usize = 0;
        while i < 20 && i < s.len()
            invariant
                i <= 20,
                i <= s@.len(),
                forall|k: int| 0 <= k < i ==> #[trigger] id@[k] == s@[k],
                forall|k: int| i <= k < 20 ==> #[trigger] id@[k] == 0,
            decreases 20 - i,
        {
            id[i] = s[i];
            i = i + 1;
        }
        assert(match file_id {
            Some((dev, rdev, ino)) => s@ =~= text::char_bytes(text::decimal(dev as nat))
                + text::char_bytes(text::decimal(rdev as nat)) + text::char_bytes(
                text::decimal(ino as nat),
            ),
            None => s@ =~= Seq::<u8>::empty(),
        });
        assert(id@ =~= id_bytes(file_id));
        id
    }

    /// Creates a device for a disk image of `file_size` bytes. `file_id` holds
    /// the image's device, special device and inode number, if they are known.
    pub fn new(file_size: u64, read_only: bool, file_id: Option<(u64, u64, u64)>) -> (r: Self)
        ensures
            r@ == (BlockView {
                disk: DiskView {
                    num_sectors: (file_size / SECTOR_SIZE) as u64,
                    read_only,
                    device_id: id_bytes(file_id),
                },
                acked_features: 0,
                queues: seq![VirtQueue::spec_new(QUEUE_MAX_SIZE)],
                activated: false,
            }),
    {
        let r = BlockDevice {
            num_sectors: file_size / SECTOR_SIZE,
            read_only,
            acked_features: 0,
            queues: [VirtQueue::new(QUEUE_MAX_SIZE)],
            activated: false,
            device_id: Self::build_device_id(file_id),
        };
        assert(r.queues@ =~= seq![VirtQueue::spec_new(QUEUE_MAX_SIZE)]);
        r
    }

    /// Number of 512-byte sectors.
    pub fn num_sectors(&self) -> (r: u64)
        ensures
            r == self@.disk.num_sectors,
    {
        self.num_sectors
    }

    /// Whether the disk is read-only.
    pub fn is_read_only(&self) -> (r: bool)
        ensures
            r == self@.disk.read_only,
    {
        self.read_only
    }

    /// The device ID.
    pub fn device_id(&self) -> (r: &[u8; 20])
        ensures
            r@ == self@.disk.device_id,
    {
        &self.device_id
    }

    /// Starts to work on all that waits in a queue.
    pub fn process_queue(&self, memory: &mut GuestMemory, queue: &VirtQueue) -> (r: (
        BlockRun,
        BlockStep,
    ))
        ensures
            ({
                let s = self@.disk.begun(old(memory)@, *queue);
                &&& final(memory)@ == s.mem
                &&& r.0@ == s.run
                &&& r.0.wf()
                &&& r.1.is_stop(s.stop)
            }),
    {
        let mut run = BlockRun {
            queue: *queue,
            avail: queue.last_avail_idx,
            processed: false,
            active: None,
        };
        if !queue.is_usable() {
            return (run, BlockStep::Finished(Ok(false)));
        }
        match queue.read_avail_idx(memory) {
            Ok(avail) => {
                run.avail = avail;
            },
            Err(e) => {
                return (
                    run,
                    BlockStep::Finished(Err(BlockError::from_fault(QueueFault::Memory(e)))),
                );
            },
        }
        let step = self.go_on(memory, &mut run, None);
        (run, step)
    }

    /// Goes on with the disk's reply to the operation that work stopped at.
    pub fn resume(&self, memory: &mut GuestMemory, run: &mut BlockRun, reply: DiskReply) -> (r:
        BlockStep)
        requires
            old(run).wf(),
        ensures
            final(run).wf(),
            ({
                let s = self@.disk.resumed(old(memory)@, old(run)@, reply@);
                &&& final(memory)@ == s.mem
                &&& final(run)@ == s.run
                &&& r.is_stop(s.stop)
            }),
    {
        let ghost before = run@;
        match run.active.take() {
            None => BlockStep::Finished(Ok(run.processed)),
            Some(req) => {
                let mut req = req;
                if Self::take_reply(memory, &mut req, reply) {
                    run.active = Some(req);
                    self.go_on(memory, run, None)
                } else {
                    proof {
                        lemma_request_gone(
                            self@.disk,
                            memory@,
                            before,
                            req.head,
                            VIRTIO_BLK_S_IOERR,
                            0,
                        );
                        assert(run@ == (BlockRunView { active: None, ..before }));
                    }
                    let head: u16 = req.head;
                    self.go_on(memory, run, Some((head, VIRTIO_BLK_S_IOERR, 0)))
                }
            },
        }
    }

    /// Starts to work on the device's own queue `queue_idx`, if it has one.
    pub fn begin_queue(&self, queue_idx: usize, memory: &mut GuestMemory) -> (r: Option<
        (BlockRun, BlockStep),
    >)
        ensures
            match r {
                Some((run, step)) => {
                    let s = self@.disk.begun(old(memory)@, self@.queues[0]);
                    &&& queue_idx == 0
                    &&& final(memory)@ == s.mem
                    &&& run@ == s.run
                    &&& run.wf()
                    &&& step.is_stop(s.stop)
                },
                None => queue_idx != 0 && final(memory)@ == old(memory)@,
            },
    {
        if queue_idx != 0 {
            return None;
        }
        let queue = self.queues[0];
        Some(self.process_queue(memory, &queue))
    }

    /// Ends work on the device's own queue: takes over its positions, and says
    /// whether anything was handled. What went wrong counts as nothing handled.
    pub fn end_queue(&mut self, run: &BlockRun, result: &Result<bool, BlockError>) -> (r: bool)
        ensures
            final(self)@ == (BlockView {
                queues: old(self)@.queues.update(
                    0,
                    old(self)@.queues[0].with_positions(run@.queue),
                ),
                ..old(self)@
            }),
            r == (match *result {
                Ok(b) => b,
                Err(_) => false,
            }),
    {
        let mut q = self.queues[0];
        q.last_avail_idx = run.queue.last_avail_idx;
        q.last_used_idx = run.queue.last_used_idx;
        self.queues[0] = q;
        match result {
            Ok(b) => *b,
            Err(_) => false,
        }
    }

    /// The kind of the device.
    pub fn device_type(&self) -> (r: DeviceType)
        ensures
            r == DeviceType::Block,
    {
        DeviceType::Block
    }

    /// The features that the device offers.
    pub fn avail_features(&self) -> (r: u64)
        ensures
            r == (if self@.disk.read_only {
                VIRTIO_F_VERSION_1 | VIRTIO_BLK_F_RO
            } else {
                VIRTIO_F_VERSION_1
            }),
    {
        if self.read_only {
            VIRTIO_F_VERSION_1 | VIRTIO_BLK_F_RO
        } else {
            VIRTIO_F_VERSION_1
        }
    }

    /// The features that the driver accepted.
    pub fn acked_features(&self) -> (r: u64)
        ensures
            r == self@.acked_features,
    {
        self.acked_features
    }

    /// Notes the features that the driver accepted.
    pub fn set_acked_features(&mut self, features: u64)
        ensures
            final(self)@ == (BlockView { acked_features: features, ..old(self)@ }),
    {
        self.acked_features = features;
    }

    /// The queues.
    pub fn queues(&self) -> (r: &[VirtQueue; 1])
        ensures
            r@ == self@.queues,
    {
        &self.queues
    }

    /// The queues, to be configured.
    pub fn queues_mut(&mut self) -> (r: &mut [VirtQueue; 1])
        ensures
            r@ == old(self)@.queues,
            final(self)@ == (BlockView { queues: final(r)@, ..old(self)@ }),
    {
        &mut self.queues
    }

    /// Reads the configuration space: the number of sectors.
    pub fn read_config(&self, offset: u64, data: &mut [u8])
        ensures
            final(data)@ == Seq::new(
                old(data)@.len(),
                |i: int|
                    transport::config_byte(bytes::le64_bytes(self@.disk.num_sectors), offset + i),
            ),
    {
        read_config_space(le64_vec(self.num_sectors).as_slice(), offset, data);
    }

    /// Does nothing: the configuration space is read-only.
    pub fn write_config(&mut self, _offset: u64, _data: &[u8])
        ensures
            *final(self) == *old(self),
    {
    }

    /// Notes that the driver is ready.
    pub fn activate(&mut self) -> (r: Result<(), VirtioError>)
        ensures
            r == Ok::<(), VirtioError>(()),
            final(self)@ == (BlockView { activated: true, ..old(self)@ }),
    {
        self.activated = true;
        Ok(())
    }

    /// Whether the driver is ready.
    pub fn is_activated(&self) -> (r: bool)
        ensures
            r == self@.activated,
    {
        self.activated
    }

    /// Forgets the driver.
    pub fn reset(&mut self)
        ensures
            final(self)@ == (BlockView {
                activated: false,
                queues: seq![VirtQueue::spec_new(old(self)@.queues[0].max_size)],
                ..old(self)@
            }),
    {
        self.activated = false;
        self.queues = [VirtQueue::new(self.queues[0].max_size)];
        assert(self.queues@ =~= seq![VirtQueue::spec_new(old(self)@.queues[0].max_size)]);
    }
}

/// A read-only disk is never asked to write, whatever the requests are.
pub proof fn law_read_only_disk_is_not_written(d: DiskView, m: MemView, run: BlockRunView)
    requires
        d.read_only,
    ensures
        !(d.go_on(m, run).stop matches StopView::Disk(DiskOpView::Write(_))),
    decreases
        transport::ring_distance(run.queue.last_avail_idx, run.avail),
        (if run.active is None {
            3int
        } else {
            2int
        }),
{
    reveal(needs);
    match run.active {
        Some(r) => {
            let (m1, r1, need) = needs(d.read_only, d.device_id, m, r);
            match need {
                Need::Disk(op) => {},
                Need::End(s) => {
                    let (m2, status, written) = ended(m1, r1, s);
                    lemma_read_only_after(d, m2, run, r.head, status, written);
                },
            }
        },
        None => if run.queue.last_avail_idx != run.avail {
            match run.queue.avail_head(m) {
                Err(_) => {},
                Ok(head) => match parsed(m, run.queue, head) {
                    Err(_) => {
                        lemma_read_only_after(d, m, run, head, VIRTIO_BLK_S_IOERR, 0);
                    },
                    Ok(r) => {
                        law_read_only_disk_is_not_written(
                            d,
                            m,
                            BlockRunView { active: Some(r), ..run },
                        );
                    },
                },
            }
        },
    }
}

proof fn lemma_read_only_after(
    d: DiskView,
    m: MemView,
    run: BlockRunView,
    head: u16,
    status: u8,
    written: u32,
)
    requires
        d.read_only,
    ensures
        !(d.after_request(m, run, head, status, written).stop matches StopView::Disk(
            DiskOpView::Write(_),
        )),
    decreases transport::ring_distance(run.queue.last_avail_idx, run.avail), 1int,
{
    let (m1, q1, s) = settled(m, run.queue, head, status, written);
    if s is Ok && run.queue.last_avail_idx != run.avail {
        law_read_only_disk_is_not_written(
            d,
            m1,
            BlockRunView { queue: q1, active: None, processed: true, ..run },
        );
    }
}

/// A read or write begins at its sector: the first operation goes to the byte
/// 512 times the sector's number.
pub proof fn law_transfer_starts_at_sector(d: DiskView, m: MemView, r: RequestView)
    requires
        r.kind == VIRTIO_BLK_T_IN || (r.kind == VIRTIO_BLK_T_OUT && !d.read_only),
        !r.started,
        r.sector * SECTOR_SIZE <= u64::MAX,
    ensures
        needs(d.read_only, d.device_id, m, r).2 == Need::Disk(
            DiskOpView::Seek((r.sector * SECTOR_SIZE) as u64),
        ),
{
    reveal(needs);
}

/// A request that the device does not know is answered so, and nothing else
/// happens.
pub proof fn law_unknown_request(d: DiskView, m: MemView, r: RequestView)
    requires
        r.kind != VIRTIO_BLK_T_IN,
        r.kind != VIRTIO_BLK_T_OUT,
        r.kind != VIRTIO_BLK_T_FLUSH,
        r.kind != VIRTIO_BLK_T_GET_ID,
    ensures
        needs(d.read_only, d.device_id, m, r) == (m, r, Need::End(Some(VIRTIO_BLK_S_UNSUPP))),
{
    reveal(needs);
}

/// When the disk fails, the request is answered with an error and work goes on
/// with the next one.
pub proof fn law_failed_operation_ends_request(d: DiskView, m: MemView, run: BlockRunView)
    requires
        run.active is Some,
    ensures
        d.resumed(m, run, DiskReplyView::Failed) == d.after_request(
            m,
            run,
            run.active->Some_0.head,
            VIRTIO_BLK_S_IOERR,
            0,
        ),
{
    reveal(replied);
}

/// A malformed request is answered with an error and work goes on with the
/// next one.
pub proof fn law_malformed_request_is_answered(d: DiskView, m: MemView, run: BlockRunView, head: u16)
    requires
        run.active is None,
        run.queue.last_avail_idx != run.avail,
        run.queue.avail_head(m) == Ok::<u16, MemoryError>(head),
        parsed(m, run.queue, head) is Err,
    ensures
        d.go_on(m, run) == d.after_request(m, run, head, VIRTIO_BLK_S_IOERR, 0),
{
}

} // verus!
